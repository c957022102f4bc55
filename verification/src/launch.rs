//! What a stream is started with: where it comes from, how it is encoded, and the files
//! that come out.
use crate::config::{ladder, variant_fits, AbrConfig, StreamVariant, VariantView};
use crate::paths::{join_path, joined};
use crate::paths::law_names_stand_below_directories;
use crate::text::{
    cat2, cat3, cat6, decimal, decimal_text, is_digit, law_decimal_reads_back, lemma_decimal_digits,
    lemma_split_extend, lemma_split_single, pairs, split, texts,
};
use vstd::prelude::*;
use vstd::string::*;

verus! {

broadcast use vstd::string::group_string_axioms;

/// One rendition: its playlist, what goes into it, and how it is encoded.
#[derive(Debug, Clone, PartialEq)]
pub struct OutputPlan {
    pub path: String,
    pub stream_maps: Vec<String>,
    pub format: String,
    pub video_codec: String,
    pub audio_codec: String,
    pub video_codec_opts: Vec<(String, String)>,
    pub audio_codec_opts: Vec<(String, String)>,
    pub format_opts: Vec<(String, String)>,
}

/// The playlist that lists the renditions.
#[derive(Debug, Clone, PartialEq)]
pub struct MasterPlaylist {
    pub path: String,
    pub content: String,
}

/// Everything a stream is started with. An empty filter stands for none.
#[derive(Debug, Clone, PartialEq)]
pub struct LaunchPlan {
    pub rtmp_url: String,
    pub stream_dir: String,
    pub variant_dirs: Vec<String>,
    pub input_opts: Vec<(String, String)>,
    pub filter_desc: String,
    pub outputs: Vec<OutputPlan>,
    pub master_playlist: Option<MasterPlaylist>,
}

/// What the plan of a rendition says.
pub struct OutputView {
    pub path: Seq<char>,
    pub stream_maps: Seq<Seq<char>>,
    pub format: Seq<char>,
    pub video_codec: Seq<char>,
    pub audio_codec: Seq<char>,
    pub video_codec_opts: Seq<(Seq<char>, Seq<char>)>,
    pub audio_codec_opts: Seq<(Seq<char>, Seq<char>)>,
    pub format_opts: Seq<(Seq<char>, Seq<char>)>,
}

/// What a plan says.
pub struct PlanView {
    pub rtmp_url: Seq<char>,
    pub stream_dir: Seq<char>,
    pub variant_dirs: Seq<Seq<char>>,
    pub input_opts: Seq<(Seq<char>, Seq<char>)>,
    pub filter_desc: Seq<char>,
    pub outputs: Seq<OutputView>,
    pub master_playlist: Option<(Seq<char>, Seq<char>)>,
}

impl View for OutputPlan {
    type V = OutputView;

    open spec fn view(&self) -> OutputView {
        OutputView {
            path: self.path@,
            stream_maps: texts(self.stream_maps@),
            format: self.format@,
            video_codec: self.video_codec@,
            audio_codec: self.audio_codec@,
            video_codec_opts: pairs(self.video_codec_opts@),
            audio_codec_opts: pairs(self.audio_codec_opts@),
            format_opts: pairs(self.format_opts@),
        }
    }
}

/// What the plans of several renditions say.
pub open spec fn outputs_of(v: Seq<OutputPlan>) -> Seq<OutputView> {
    v.map_values(|o: OutputPlan| o@)
}

impl View for LaunchPlan {
    type V = PlanView;

    open spec fn view(&self) -> PlanView {
        PlanView {
            rtmp_url: self.rtmp_url@,
            stream_dir: self.stream_dir@,
            variant_dirs: texts(self.variant_dirs@),
            input_opts: pairs(self.input_opts@),
            filter_desc: self.filter_desc@,
            outputs: outputs_of(self.outputs@),
            master_playlist: match self.master_playlist {
                Some(m) => Some((m.path@, m.content@)),
                None => None,
            },
        }
    }
}

/// The settings that decide how streams are started.
pub struct LaunchSettings {
    pub host: Seq<char>,
    pub port: Seq<char>,
    pub hls_path: Seq<char>,
    pub hls_time: u32,
    pub hls_list_size: u32,
    pub rw_timeout: u32,
    pub adaptive: bool,
    pub ladder: Seq<VariantView>,
}

// ---------------------------------------------------------------------------
// What a plan is
// ---------------------------------------------------------------------------

/// Where a stream comes from.
pub open spec fn source_url(host: Seq<char>, port: Seq<char>, key: Seq<char>) -> Seq<char> {
    "rtmp://"@ + host + ":"@ + port + "/live/"@ + key
}

/// Where the files of a stream stand.
pub open spec fn stream_dir(hls_path: Seq<char>, key: Seq<char>) -> Seq<char> {
    joined(hls_path, key)
}

/// A number of kilobits per second.
pub open spec fn kilobits(n: nat) -> Seq<char> {
    decimal(n) + "k"@
}

/// The labels of the first `n` copies of the picture.
pub open spec fn split_labels(n: nat) -> Seq<char>
    decreases n,
{
    if n == 0 {
        ""@
    } else {
        split_labels((n - 1) as nat) + "[split"@ + decimal((n - 1) as nat) + "]"@
    }
}

/// What scales copy number `i` to a rung of the ladder.
pub open spec fn scaler(v: VariantView, i: nat) -> Seq<char> {
    ";[split"@ + decimal(i) + "]scale="@ + decimal(v.width as nat) + ":"@ + decimal(v.height as nat)
        + ",fps="@ + decimal(v.framerate as nat) + "[vout"@ + decimal(i) + "]"@
}

/// What scales the copies for the first `n` rungs.
pub open spec fn scalers(ladder: Seq<VariantView>, n: nat) -> Seq<char>
    decreases n,
{
    if n == 0 {
        ""@
    } else {
        scalers(ladder, (n - 1) as nat) + scaler(ladder[n - 1], (n - 1) as nat)
    }
}

/// The filter that makes one picture for each rung out of the picture that comes in.
pub open spec fn filter_for(ladder: Seq<VariantView>) -> Seq<char> {
    "[0:v]split="@ + decimal(ladder.len()) + split_labels(ladder.len()) + scalers(ladder, ladder.len())
}

/// The entry of a rung in the playlist that lists the renditions: its total bandwidth
/// in bits, its size and frame rate, and where its own playlist is.
pub open spec fn master_entry(v: VariantView) -> Seq<char> {
    "#EXT-X-STREAM-INF:BANDWIDTH="@ + decimal((v.bitrate * 1000 + v.audio_bitrate * 1000) as nat)
        + ",RESOLUTION="@ + decimal(v.width as nat) + "x"@ + decimal(v.height as nat) + ",FRAMERATE="@
        + decimal(v.framerate as nat) + "\n"@ + v.name + "/index.m3u8\n"@
}

/// The playlist that lists the first `n` renditions.
pub open spec fn master_text(ladder: Seq<VariantView>, n: nat) -> Seq<char>
    decreases n,
{
    if n == 0 {
        "#EXTM3U\n#EXT-X-VERSION:3\n"@
    } else {
        master_text(ladder, (n - 1) as nat) + master_entry(ladder[n - 1])
    }
}

/// Where the playlist of a rendition stands.
pub open spec fn variant_playlist(hls_path: Seq<char>, key: Seq<char>, name: Seq<char>) -> Seq<char> {
    joined(joined(stream_dir(hls_path, key), name), "index.m3u8"@)
}

/// The plan of the rendition for rung number `i`, whose peak rate is `maxrate`.
pub open spec fn variant_output(
    s: LaunchSettings,
    key: Seq<char>,
    v: VariantView,
    i: nat,
    maxrate: u32,
) -> OutputView {
    OutputView {
        path: variant_playlist(s.hls_path, key, v.name),
        stream_maps: seq!["vout"@ + decimal(i), "0:a"@],
        format: "hls"@,
        video_codec: "libx264"@,
        audio_codec: "aac"@,
        video_codec_opts: seq![
            ("preset"@, v.preset),
            ("profile"@, v.profile),
            ("b"@, kilobits(v.bitrate as nat)),
            ("maxrate"@, kilobits(maxrate as nat)),
            ("bufsize"@, kilobits((v.bitrate * 2) as nat)),
            ("g"@, decimal((v.framerate * 2) as nat)),
            ("keyint_min"@, decimal(v.framerate as nat)),
            ("sc_threshold"@, "0"@),
        ],
        audio_codec_opts: seq![("b"@, kilobits(v.audio_bitrate as nat)), ("ac"@, "2"@)],
        format_opts: seq![
            ("hls_time"@, decimal(s.hls_time as nat)),
            ("hls_list_size"@, decimal(s.hls_list_size as nat)),
            ("hls_flags"@, "delete_segments+append_list"@),
            ("hls_segment_type"@, "mpegts"@),
            (
                "hls_segment_filename"@,
                joined(joined(stream_dir(s.hls_path, key), v.name), "segment_%03d.ts"@),
            ),
        ],
    }
}

/// The plan of the one rendition of a stream that is passed on as it comes.
pub open spec fn single_output(s: LaunchSettings, key: Seq<char>) -> OutputView {
    OutputView {
        path: joined(stream_dir(s.hls_path, key), "index.m3u8"@),
        stream_maps: seq!["0:v"@, "0:a"@],
        format: "hls"@,
        video_codec: "copy"@,
        audio_codec: "copy"@,
        video_codec_opts: Seq::empty(),
        audio_codec_opts: Seq::empty(),
        format_opts: seq![
            ("hls_time"@, decimal(s.hls_time as nat)),
            ("hls_list_size"@, decimal(s.hls_list_size as nat)),
            ("hls_flags"@, "delete_segments+append_list"@),
            ("hls_segment_filename"@, joined(stream_dir(s.hls_path, key), key + "_%03d.ts"@)),
        ],
    }
}

/// How the stream is read: with a time limit, and with little looked at in advance.
pub open spec fn input_options(s: LaunchSettings) -> Seq<(Seq<char>, Seq<char>)> {
    seq![
        ("rw_timeout"@, decimal(s.rw_timeout as nat)),
        ("analyzeduration"@, "2000000"@),
        ("probesize"@, "1M"@),
    ]
}

/// The plan for a stream. `maxrates` gives the peak rate for each rung of the ladder.
pub open spec fn plan_for(s: LaunchSettings, key: Seq<char>, maxrates: Seq<u32>) -> PlanView {
    let dir = stream_dir(s.hls_path, key);
    if s.adaptive {
        PlanView {
            rtmp_url: source_url(s.host, s.port, key),
            stream_dir: dir,
            variant_dirs: s.ladder.map_values(|v: VariantView| joined(dir, v.name)),
            input_opts: input_options(s),
            filter_desc: filter_for(s.ladder),
            outputs: Seq::new(
                s.ladder.len(),
                |i: int| variant_output(s, key, s.ladder[i], i as nat, maxrates[i]),
            ),
            master_playlist: Some(
                (joined(dir, "master.m3u8"@), master_text(s.ladder, s.ladder.len())),
            ),
        }
    } else {
        PlanView {
            rtmp_url: source_url(s.host, s.port, key),
            stream_dir: dir,
            variant_dirs: Seq::empty(),
            input_opts: input_options(s),
            filter_desc: ""@,
            outputs: seq![single_output(s, key)],
            master_playlist: None,
        }
    }
}

/// Every rung has numbers that fit, and a peak rate.
pub open spec fn ladder_fits(s: LaunchSettings, maxrates: Seq<u32>) -> bool {
    s.adaptive ==> {
        &&& maxrates.len() == s.ladder.len()
        &&& forall|i: int| 0 <= i < s.ladder.len() ==> variant_fits(#[trigger] s.ladder[i])
    }
}

/// The playlists that tell whether a stream is ready.
pub open spec fn probe_paths(s: LaunchSettings, key: Seq<char>) -> Seq<Seq<char>> {
    if s.adaptive {
        s.ladder.map_values(|v: VariantView| variant_playlist(s.hls_path, key, v.name))
    } else {
        seq![joined(stream_dir(s.hls_path, key), "index.m3u8"@)]
    }
}

// ---------------------------------------------------------------------------
// Making a plan
// ---------------------------------------------------------------------------

fn option(name: &str, value: &str) -> (r: (String, String))
    ensures
        r.0@ == name@,
        r.1@ == value@,
{
    (name.to_owned(), value.to_owned())
}

fn kilobits_text(n: u32) -> (r: String)
    ensures
        r@ == kilobits(n as nat),
{
    cat2(decimal_text(n as u64).as_str(), "k")
}

/// The filter that makes one picture for each rung.
pub fn filter_complex(variants: &Vec<StreamVariant>) -> (r: String)
    ensures
        r@ == filter_for(ladder(variants@)),
{
    let ghost rungs = ladder(variants@);
    let count: usize = variants.len();
    let start = cat2("[0:v]split=", decimal_text(count as u64).as_str());
    let mut labels: String = "".to_owned();
    let mut i: usize = 0;
    while i < count
        invariant
            0 <= i <= count,
            labels@ == split_labels(i as nat),
        decreases count - i,
    {
        labels.append("[split");
        labels.append(decimal_text(i as u64).as_str());
        labels.append("]");
        i = i + 1;
    }
    let mut scaling: String = "".to_owned();
    let mut j: usize = 0;
    while j < count
        invariant
            0 <= j <= count,
            count == variants@.len(),
            rungs == ladder(variants@),
            scaling@ == scalers(rungs, j as nat),
        decreases count - j,
    {
        let v = &variants[j];
        assert(rungs[j as int] == v@);
        let n = decimal_text(j as u64);
        let mut part = cat6(
            ";[split",
            n.as_str(),
            "]scale=",
            decimal_text(v.width as u64).as_str(),
            ":",
            decimal_text(v.height as u64).as_str(),
        );
        part.append(",fps=");
        part.append(decimal_text(v.framerate as u64).as_str());
        part.append("[vout");
        part.append(n.as_str());
        part.append("]");
        scaling.append(part.as_str());
        j = j + 1;
    }
    cat3(start.as_str(), labels.as_str(), scaling.as_str())
}

/// The playlist that lists the renditions.
pub fn create_master_playlist(variants: &Vec<StreamVariant>) -> (r: String)
    requires
        forall|i: int| 0 <= i < variants@.len() ==> variant_fits(#[trigger] ladder(variants@)[i]),
    ensures
        r@ == master_text(ladder(variants@), variants@.len()),
{
    let ghost rungs = ladder(variants@);
    let mut content: String = "#EXTM3U\n#EXT-X-VERSION:3\n".to_owned();
    let mut i: usize = 0;
    while i < variants.len()
        invariant
            0 <= i <= variants@.len(),
            rungs == ladder(variants@),
            forall|k: int| 0 <= k < variants@.len() ==> variant_fits(#[trigger] rungs[k]),
            content@ == master_text(rungs, i as nat),
        decreases variants@.len() - i,
    {
        let v = &variants[i];
        assert(rungs[i as int] == v@);
        let bandwidth: u32 = v.bitrate * 1000 + v.audio_bitrate * 1000;
        let mut entry = cat6(
            "#EXT-X-STREAM-INF:BANDWIDTH=",
            decimal_text(bandwidth as u64).as_str(),
            ",RESOLUTION=",
            decimal_text(v.width as u64).as_str(),
            "x",
            decimal_text(v.height as u64).as_str(),
        );
        entry.append(",FRAMERATE=");
        entry.append(decimal_text(v.framerate as u64).as_str());
        entry.append("\n");
        entry.append(v.name.as_str());
        entry.append("/index.m3u8\n");
        content.append(entry.as_str());
        i = i + 1;
    }
    content
}

/// What a stream is started with, apart from the stream itself.
#[derive(Debug)]
pub struct Launcher {
    pub srs_host: String,
    pub srs_port: String,
    pub hls_path: String,
    pub ffmpeg_hls_time: u32,
    pub ffmpeg_hls_list_size: u32,
    pub ffmpeg_rw_timeout: u32,
    pub abr_config: AbrConfig,
}

impl View for Launcher {
    type V = LaunchSettings;

    open spec fn view(&self) -> LaunchSettings {
        LaunchSettings {
            host: self.srs_host@,
            port: self.srs_port@,
            hls_path: self.hls_path@,
            hls_time: self.ffmpeg_hls_time,
            hls_list_size: self.ffmpeg_hls_list_size,
            rw_timeout: self.ffmpeg_rw_timeout,
            adaptive: self.abr_config.is_adaptive(),
            ladder: ladder(self.abr_config.variants@),
        }
    }
}

impl Launcher {
    /// Where the files of a stream stand.
    pub fn stream_dir(&self, stream_key: &str) -> (r: String)
        ensures
            r@ == stream_dir(self@.hls_path, stream_key@),
    {
        join_path(self.hls_path.as_str(), stream_key)
    }

    fn variant_output(&self, stream_key: &str, i: usize, maxrate: u32) -> (r: OutputPlan)
        requires
            i < self.abr_config.variants@.len(),
            variant_fits(self@.ladder[i as int]),
        ensures
            r@ == variant_output(self@, stream_key@, self@.ladder[i as int], i as nat, maxrate),
    {
        let v = &self.abr_config.variants[i];
        let ghost spec = variant_output(self@, stream_key@, self@.ladder[i as int], i as nat, maxrate);
        assert(self@.ladder[i as int] == v@);
        let dir = join_path(self.stream_dir(stream_key).as_str(), v.name.as_str());
        let mut stream_maps: Vec<String> = Vec::new();
        stream_maps.push(cat2("vout", decimal_text(i as u64).as_str()));
        stream_maps.push("0:a".to_owned());
        assert(texts(stream_maps@) =~= spec.stream_maps);
        let mut video: Vec<(String, String)> = Vec::new();
        video.push(option("preset", v.preset.as_str()));
        video.push(option("profile", v.profile.as_str()));
        video.push(option("b", kilobits_text(v.bitrate).as_str()));
        video.push(option("maxrate", kilobits_text(maxrate).as_str()));
        video.push(option("bufsize", kilobits_text(v.bitrate * 2).as_str()));
        video.push(option("g", decimal_text((v.framerate * 2) as u64).as_str()));
        video.push(option("keyint_min", decimal_text(v.framerate as u64).as_str()));
        video.push(option("sc_threshold", "0"));
        assert(pairs(video@) =~= spec.video_codec_opts);
        let mut audio: Vec<(String, String)> = Vec::new();
        audio.push(option("b", kilobits_text(v.audio_bitrate).as_str()));
        audio.push(option("ac", "2"));
        assert(pairs(audio@) =~= spec.audio_codec_opts);
        let mut format: Vec<(String, String)> = Vec::new();
        format.push(option("hls_time", decimal_text(self.ffmpeg_hls_time as u64).as_str()));
        format.push(option("hls_list_size", decimal_text(self.ffmpeg_hls_list_size as u64).as_str()));
        format.push(option("hls_flags", "delete_segments+append_list"));
        format.push(option("hls_segment_type", "mpegts"));
        format.push(
            option("hls_segment_filename", join_path(dir.as_str(), "segment_%03d.ts").as_str()),
        );
        assert(pairs(format@) =~= spec.format_opts);
        OutputPlan {
            path: join_path(dir.as_str(), "index.m3u8"),
            stream_maps,
            format: "hls".to_owned(),
            video_codec: "libx264".to_owned(),
            audio_codec: "aac".to_owned(),
            video_codec_opts: video,
            audio_codec_opts: audio,
            format_opts: format,
        }
    }

    fn single_output(&self, stream_key: &str) -> (r: OutputPlan)
        ensures
            r@ == single_output(self@, stream_key@),
    {
        let ghost spec = single_output(self@, stream_key@);
        let dir = self.stream_dir(stream_key);
        let mut stream_maps: Vec<String> = Vec::new();
        stream_maps.push("0:v".to_owned());
        stream_maps.push("0:a".to_owned());
        assert(texts(stream_maps@) =~= spec.stream_maps);
        let segments = join_path(dir.as_str(), cat2(stream_key, "_%03d.ts").as_str());
        let mut format: Vec<(String, String)> = Vec::new();
        format.push(option("hls_time", decimal_text(self.ffmpeg_hls_time as u64).as_str()));
        format.push(option("hls_list_size", decimal_text(self.ffmpeg_hls_list_size as u64).as_str()));
        format.push(option("hls_flags", "delete_segments+append_list"));
        format.push(option("hls_segment_filename", segments.as_str()));
        assert(pairs(format@) =~= spec.format_opts);
        let none: Vec<(String, String)> = Vec::new();
        assert(pairs(none@) =~= Seq::<(Seq<char>, Seq<char>)>::empty());
        OutputPlan {
            path: join_path(dir.as_str(), "index.m3u8"),
            stream_maps,
            format: "hls".to_owned(),
            video_codec: "copy".to_owned(),
            audio_codec: "copy".to_owned(),
            video_codec_opts: none,
            audio_codec_opts: Vec::new(),
            format_opts: format,
        }
    }

    /// The plan for a stream, with the peak rate for each rung of the ladder.
    pub fn plan(&self, stream_key: &str, maxrates: &Vec<u32>) -> (r: LaunchPlan)
        requires
            ladder_fits(self@, maxrates@),
        ensures
            r@ == plan_for(self@, stream_key@, maxrates@),
    {
        let ghost spec = plan_for(self@, stream_key@, maxrates@);
        let rtmp_url = cat6(
            "rtmp://",
            self.srs_host.as_str(),
            ":",
            self.srs_port.as_str(),
            "/live/",
            stream_key,
        );
        let dir = self.stream_dir(stream_key);
        let mut input_opts: Vec<(String, String)> = Vec::new();
        input_opts.push(option("rw_timeout", decimal_text(self.ffmpeg_rw_timeout as u64).as_str()));
        input_opts.push(option("analyzeduration", "2000000"));
        input_opts.push(option("probesize", "1M"));
        assert(pairs(input_opts@) =~= input_options(self@));
        let mut variant_dirs: Vec<String> = Vec::new();
        let mut outputs: Vec<OutputPlan> = Vec::new();
        if self.abr_config.adaptive() {
            let ghost rungs = self@.ladder;
            let mut i: usize = 0;
            while i < self.abr_config.variants.len()
                invariant
                    0 <= i <= self.abr_config.variants@.len(),
                    rungs == self@.ladder,
                    rungs == ladder(self.abr_config.variants@),
                    self@.adaptive,
                    ladder_fits(self@, maxrates@),
                    dir@ == stream_dir(self@.hls_path, stream_key@),
                    spec == plan_for(self@, stream_key@, maxrates@),
                    texts(variant_dirs@) == spec.variant_dirs.take(i as int),
                    outputs_of(outputs@) == spec.outputs.take(i as int),
                decreases self.abr_config.variants@.len() - i,
            {
                let ghost dirs = texts(variant_dirs@);
                let ghost outs = outputs_of(outputs@);
                let v = &self.abr_config.variants[i];
                assert(rungs[i as int] == v@);
                let variant_dir = join_path(dir.as_str(), v.name.as_str());
                assert(variant_dir@ == spec.variant_dirs[i as int]);
                variant_dirs.push(variant_dir);
                assert(texts(variant_dirs@) =~= dirs.push(spec.variant_dirs[i as int]));
                assert(spec.variant_dirs.take(i + 1) =~= dirs.push(spec.variant_dirs[i as int]));
                let output = self.variant_output(stream_key, i, maxrates[i]);
                assert(output@ == spec.outputs[i as int]);
                outputs.push(output);
                assert(outputs_of(outputs@) =~= outs.push(spec.outputs[i as int]));
                assert(spec.outputs.take(i + 1) =~= outs.push(spec.outputs[i as int]));
                i = i + 1;
            }
            assert(spec.variant_dirs.take(i as int) =~= spec.variant_dirs);
            assert(spec.outputs.take(i as int) =~= spec.outputs);
            let content = create_master_playlist(&self.abr_config.variants);
            LaunchPlan {
                rtmp_url,
                master_playlist: Some(
                    MasterPlaylist { path: join_path(dir.as_str(), "master.m3u8"), content },
                ),
                stream_dir: dir,
                variant_dirs,
                input_opts,
                filter_desc: filter_complex(&self.abr_config.variants),
                outputs,
            }
        } else {
            outputs.push(self.single_output(stream_key));
            assert(outputs_of(outputs@) =~= spec.outputs);
            assert(texts(variant_dirs@) =~= spec.variant_dirs);
            LaunchPlan {
                rtmp_url,
                stream_dir: dir,
                variant_dirs,
                input_opts,
                filter_desc: "".to_owned(),
                outputs,
                master_playlist: None,
            }
        }
    }

    /// Where the playlist that lists the renditions of a stream stands.
    pub fn master_path(&self, stream_key: &str) -> (r: String)
        ensures
            r@ == joined(stream_dir(self@.hls_path, stream_key@), "master.m3u8"@),
    {
        join_path(self.stream_dir(stream_key).as_str(), "master.m3u8")
    }

    /// The playlists that tell whether a stream is ready.
    pub fn ready_paths(&self, stream_key: &str) -> (r: Vec<String>)
        ensures
            texts(r@) == probe_paths(self@, stream_key@),
    {
        let ghost spec = probe_paths(self@, stream_key@);
        let dir = self.stream_dir(stream_key);
        let mut r: Vec<String> = Vec::new();
        if self.abr_config.adaptive() {
            let mut i: usize = 0;
            while i < self.abr_config.variants.len()
                invariant
                    0 <= i <= self.abr_config.variants@.len(),
                    self@.adaptive,
                    dir@ == stream_dir(self@.hls_path, stream_key@),
                    spec == probe_paths(self@, stream_key@),
                    texts(r@) == spec.take(i as int),
                decreases self.abr_config.variants@.len() - i,
            {
                let ghost so_far = texts(r@);
                let v = &self.abr_config.variants[i];
                assert(self@.ladder[i as int] == v@);
                let variant_dir = join_path(dir.as_str(), v.name.as_str());
                r.push(join_path(variant_dir.as_str(), "index.m3u8"));
                assert(texts(r@) =~= so_far.push(spec[i as int]));
                assert(spec.take(i + 1) =~= so_far.push(spec[i as int]));
                i = i + 1;
            }
            assert(spec.take(i as int) =~= spec);
        } else {
            r.push(join_path(dir.as_str(), "index.m3u8"));
            assert(texts(r@) =~= spec);
        }
        r
    }
}

/// Each rung of the ladder has its own directory and its own rendition, in the order of
/// the ladder, and whether a stream is ready is read off the very playlists that its
/// renditions write.
pub proof fn law_renditions_follow_ladder(s: LaunchSettings, key: Seq<char>, maxrates: Seq<u32>)
    ensures
        s.adaptive ==> plan_for(s, key, maxrates).outputs.len() == s.ladder.len() && plan_for(
            s,
            key,
            maxrates,
        ).variant_dirs.len() == s.ladder.len(),
        !s.adaptive ==> plan_for(s, key, maxrates).outputs.len() == 1 && plan_for(
            s,
            key,
            maxrates,
        ).variant_dirs.len() == 0,
        plan_for(s, key, maxrates).outputs.map_values(|o: OutputView| o.path) == probe_paths(s, key),
        s.adaptive <==> plan_for(s, key, maxrates).master_playlist is Some,
{
    assert(plan_for(s, key, maxrates).outputs.map_values(|o: OutputView| o.path) =~= probe_paths(
        s,
        key,
    ));
}

/// A stream that is encoded has a filter; one that is passed on as it comes has none.
pub proof fn law_filter_only_where_encoded(s: LaunchSettings, key: Seq<char>, maxrates: Seq<u32>)
    ensures
        s.adaptive <==> plan_for(s, key, maxrates).filter_desc.len() > 0,
{
    reveal_strlit("[0:v]split=");
    reveal_strlit("");
}

proof fn lemma_numbers_have_only_digits(n: nat, c: char)
    requires
        !is_digit(c),
    ensures
        !decimal(n).contains(c),
{
    lemma_decimal_digits(n);
}

/// The part of the filter that scales one copy, with the label it is put out under.
spec fn scaling(v: VariantView, i: nat, label: Seq<char>) -> Seq<char> {
    "[split"@ + decimal(i) + "]scale="@ + decimal(v.width as nat) + ":"@ + decimal(v.height as nat)
        + ",fps="@ + decimal(v.framerate as nat) + "["@ + label + "]"@
}

proof fn lemma_scaler_is_scaling(v: VariantView, i: nat)
    ensures
        scaler(v, i) == seq![';'] + scaling(v, i, "vout"@ + decimal(i)),
        !scaling(v, i, "vout"@ + decimal(i)).contains(';'),
{
    reveal_strlit(";[split");
    reveal_strlit("[split");
    reveal_strlit("]scale=");
    reveal_strlit(":");
    reveal_strlit(",fps=");
    reveal_strlit("[vout");
    reveal_strlit("vout");
    reveal_strlit("[");
    reveal_strlit("]");
    lemma_numbers_have_only_digits(i, ';');
    lemma_numbers_have_only_digits(v.width as nat, ';');
    lemma_numbers_have_only_digits(v.height as nat, ';');
    lemma_numbers_have_only_digits(v.framerate as nat, ';');
    assert(";[split"@ =~= seq![';'] + "[split"@);
    assert("[vout"@ =~= "["@ + "vout"@);
    assert(scaler(v, i) =~= seq![';'] + scaling(v, i, "vout"@ + decimal(i)));
    let a = "[split"@ + decimal(i) + "]scale="@ + decimal(v.width as nat);
    assert(!a.contains(';'));
    let b = a + ":"@ + decimal(v.height as nat) + ",fps="@ + decimal(v.framerate as nat);
    assert(!b.contains(';'));
    let c = "["@ + ("vout"@ + decimal(i)) + "]"@;
    assert(!c.contains(';'));
    assert(scaling(v, i, "vout"@ + decimal(i)) =~= b + c);
}

proof fn lemma_split_labels(n: nat)
    ensures
        !split_labels(n).contains(';'),
    decreases n,
{
    reveal_strlit("[split");
    reveal_strlit("]");
    reveal_strlit("");
    if n > 0 {
        let m = (n - 1) as nat;
        lemma_split_labels(m);
        lemma_numbers_have_only_digits(m, ';');
    }
}

proof fn lemma_label_of_copy(n: nat, i: nat) -> (r: (Seq<char>, Seq<char>))
    requires
        i < n,
    ensures
        split_labels(n) == r.0 + ("[split"@ + decimal(i) + "]"@) + r.1,
    decreases n,
{
    let m = (n - 1) as nat;
    let label = "[split"@ + decimal(i) + "]"@;
    if i == m {
        assert(split_labels(n) =~= split_labels(m) + label + Seq::<char>::empty());
        (split_labels(m), Seq::empty())
    } else {
        let (before, behind) = lemma_label_of_copy(m, i);
        let last = "[split"@ + decimal(m) + "]"@;
        assert(split_labels(n) =~= before + label + (behind + last));
        (before, behind + last)
    }
}

proof fn lemma_filter_parts(start: Seq<char>, ladder: Seq<VariantView>, n: nat)
    requires
        !start.contains(';'),
        n <= ladder.len(),
    ensures
        split(start + scalers(ladder, n), ';').len() == n + 1,
        split(start + scalers(ladder, n), ';')[0] == start,
        forall|i: int|
            0 <= i < n ==> #[trigger] split(start + scalers(ladder, n), ';')[i + 1] == scaling(
                ladder[i],
                i as nat,
                "vout"@ + decimal(i as nat),
            ),
    decreases n,
{
    reveal_strlit("");
    if n == 0 {
        assert(start + scalers(ladder, n) =~= start);
        lemma_split_single(start, ';');
    } else {
        let m = (n - 1) as nat;
        lemma_filter_parts(start, ladder, m);
        lemma_scaler_is_scaling(ladder[m as int], m);
        let part = scaling(ladder[m as int], m, "vout"@ + decimal(m));
        let so_far = start + scalers(ladder, m);
        lemma_split_extend(so_far, part, ';');
        assert(start + scalers(ladder, n) =~= so_far + seq![';'] + part);
        assert forall|i: int| 0 <= i < n implies #[trigger] split(start + scalers(ladder, n), ';')[i + 1]
            == scaling(ladder[i], i as nat, "vout"@ + decimal(i as nat)) by {
            if i < m {
                assert(split(so_far, ';')[i + 1] == scaling(ladder[i], i as nat, "vout"@ + decimal(i as nat)));
            }
        }
    }
}

/// Each rendition of an adaptive stream shows its own rung. The filter splits the picture
/// into as many labelled copies as there are renditions. Its part for rung `i` takes a copy
/// that no other part takes, scales it to the width and height of that rung at its frame
/// rate, and puts it out under the very label that rendition `i` maps first. No two
/// renditions map the same label, and each maps the sound as its second stream.
pub proof fn law_rendition_maps_its_own_picture(
    s: LaunchSettings,
    key: Seq<char>,
    maxrates: Seq<u32>,
    i: int,
    j: int,
)
    requires
        s.adaptive,
        0 <= i < s.ladder.len(),
        0 <= j < s.ladder.len(),
        i != j,
    ensures
        ({
            let plan = plan_for(s, key, maxrates);
            let parts = split(plan.filter_desc, ';');
            let (copy, rung) = (decimal(i as nat), s.ladder[i]);
            &&& plan.outputs.len() == s.ladder.len()
            &&& parts.len() == s.ladder.len() + 1
            &&& exists|before: Seq<char>, behind: Seq<char>|
                parts[0] == "[0:v]split="@ + decimal(plan.outputs.len()) + #[trigger] (before + ("[split"@
                    + copy + "]"@) + behind)
            &&& parts[i + 1] == "[split"@ + copy + "]scale="@ + decimal(rung.width as nat) + ":"@
                + decimal(rung.height as nat) + ",fps="@ + decimal(rung.framerate as nat) + "["@
                + plan.outputs[i].stream_maps[0] + "]"@
            &&& plan.outputs[i].stream_maps.len() == 2
            &&& plan.outputs[i].stream_maps[0] != plan.outputs[j].stream_maps[0]
            &&& plan.outputs[i].stream_maps[1] == "0:a"@
            &&& copy != decimal(j as nat)
        }),
{
    let plan = plan_for(s, key, maxrates);
    let n = s.ladder.len();
    reveal_strlit("[0:v]split=");
    reveal_strlit("vout");
    lemma_split_labels(n);
    lemma_numbers_have_only_digits(n, ';');
    let start = "[0:v]split="@ + decimal(n) + split_labels(n);
    assert(!start.contains(';'));
    lemma_filter_parts(start, s.ladder, n);
    let copy = decimal(i as nat);
    let (before, behind) = lemma_label_of_copy(n, i as nat);
    assert(start == "[0:v]split="@ + decimal(n) + (before + ("[split"@ + copy + "]"@) + behind));
    law_decimal_reads_back(i as nat);
    law_decimal_reads_back(j as nat);
    let (a, b) = ("vout"@ + copy, "vout"@ + decimal(j as nat));
    assert(a.skip(4) =~= copy);
    assert(b.skip(4) =~= decimal(j as nat));
}

/// Each rendition is encoded with the numbers of its own rung: its picture at the rate of
/// the rung, with a buffer for two seconds and a key picture every second or two, its sound
/// at the rate of the rung in two channels, and its segments as long and as many as the
/// settings say.
pub proof fn law_rendition_is_encoded_as_its_rung_says(
    s: LaunchSettings,
    key: Seq<char>,
    maxrates: Seq<u32>,
    i: int,
)
    requires
        s.adaptive,
        0 <= i < s.ladder.len(),
        variant_fits(s.ladder[i]),
    ensures
        ({
            let (out, rung) = (plan_for(s, key, maxrates).outputs[i], s.ladder[i]);
            let (picture, sound, form) = (
                out.video_codec_opts,
                out.audio_codec_opts,
                out.format_opts,
            );
            &&& out.format == "hls"@ && out.video_codec == "libx264"@ && out.audio_codec == "aac"@
            &&& picture.len() == 8
            &&& picture.contains(("preset"@, rung.preset))
            &&& picture.contains(("profile"@, rung.profile))
            &&& picture.contains(("b"@, decimal(rung.bitrate as nat) + "k"@))
            &&& picture.contains(("maxrate"@, decimal(maxrates[i] as nat) + "k"@))
            &&& picture.contains(("bufsize"@, decimal((rung.bitrate + rung.bitrate) as nat) + "k"@))
            &&& picture.contains(("g"@, decimal((rung.framerate + rung.framerate) as nat)))
            &&& picture.contains(("keyint_min"@, decimal(rung.framerate as nat)))
            &&& picture.contains(("sc_threshold"@, "0"@))
            &&& sound.len() == 2
            &&& sound.contains(("b"@, decimal(rung.audio_bitrate as nat) + "k"@))
            &&& sound.contains(("ac"@, "2"@))
            &&& form.len() == 5
            &&& form.contains(("hls_time"@, decimal(s.hls_time as nat)))
            &&& form.contains(("hls_list_size"@, decimal(s.hls_list_size as nat)))
            &&& form.contains(("hls_flags"@, "delete_segments+append_list"@))
            &&& form.contains(("hls_segment_type"@, "mpegts"@))
        }),
{
    let (out, rung) = (plan_for(s, key, maxrates).outputs[i], s.ladder[i]);
    let (picture, sound, form) = (out.video_codec_opts, out.audio_codec_opts, out.format_opts);
    assert(picture[0] == ("preset"@, rung.preset));
    assert(picture[1] == ("profile"@, rung.profile));
    assert(picture[2] == ("b"@, decimal(rung.bitrate as nat) + "k"@));
    assert(picture[3] == ("maxrate"@, decimal(maxrates[i] as nat) + "k"@));
    assert(picture[4] == ("bufsize"@, decimal((rung.bitrate + rung.bitrate) as nat) + "k"@));
    assert(picture[5] == ("g"@, decimal((rung.framerate + rung.framerate) as nat)));
    assert(picture[6] == ("keyint_min"@, decimal(rung.framerate as nat)));
    assert(picture[7] == ("sc_threshold"@, "0"@));
    assert(sound[0] == ("b"@, decimal(rung.audio_bitrate as nat) + "k"@));
    assert(sound[1] == ("ac"@, "2"@));
    assert(form[0] == ("hls_time"@, decimal(s.hls_time as nat)));
    assert(form[1] == ("hls_list_size"@, decimal(s.hls_list_size as nat)));
    assert(form[2] == ("hls_flags"@, "delete_segments+append_list"@));
    assert(form[3] == ("hls_segment_type"@, "mpegts"@));
}

/// A stream that is passed on as it comes is copied, picture and sound, into one rendition
/// whose segments are as long and as many as the settings say.
pub proof fn law_single_rendition_is_copied(s: LaunchSettings, key: Seq<char>, maxrates: Seq<u32>)
    requires
        !s.adaptive,
    ensures
        ({
            let plan = plan_for(s, key, maxrates);
            let out = plan.outputs[0];
            &&& plan.outputs.len() == 1
            &&& plan.filter_desc.len() == 0
            &&& out.stream_maps == seq!["0:v"@, "0:a"@]
            &&& out.format == "hls"@ && out.video_codec == "copy"@ && out.audio_codec == "copy"@
            &&& out.video_codec_opts.len() == 0 && out.audio_codec_opts.len() == 0
            &&& out.format_opts.len() == 4
            &&& out.format_opts.contains(("hls_time"@, decimal(s.hls_time as nat)))
            &&& out.format_opts.contains(("hls_list_size"@, decimal(s.hls_list_size as nat)))
            &&& out.format_opts.contains(("hls_flags"@, "delete_segments+append_list"@))
        }),
{
    reveal_strlit("");
    let opts = plan_for(s, key, maxrates).outputs[0].format_opts;
    assert(opts[0] == ("hls_time"@, decimal(s.hls_time as nat)));
    assert(opts[1] == ("hls_list_size"@, decimal(s.hls_list_size as nat)));
    assert(opts[2] == ("hls_flags"@, "delete_segments+append_list"@));
}

/// The files of a stream stand in its own directory below the root: the playlist that lists
/// the renditions, and for each rendition a directory of its name with its playlist and its
/// numbered segments; where the stream is passed on as it comes, its playlist and its
/// segments stand in the directory of the stream.
pub proof fn law_files_stand_below_their_stream(
    s: LaunchSettings,
    key: Seq<char>,
    maxrates: Seq<u32>,
    i: int,
)
    requires
        s.hls_path.len() > 0,
        s.hls_path.last() != '/',
        key.len() > 0,
        !key.contains('/'),
        0 <= i < plan_for(s, key, maxrates).outputs.len(),
        s.adaptive ==> s.ladder[i].name.len() > 0 && !s.ladder[i].name.contains('/'),
    ensures
        ({
            let plan = plan_for(s, key, maxrates);
            let dir = s.hls_path + seq!['/'] + key;
            let below = dir + seq!['/'] + s.ladder[i].name;
            &&& plan.stream_dir == dir
            &&& s.adaptive ==> {
                &&& plan.master_playlist is Some
                &&& (plan.master_playlist->0).0 == dir + seq!['/'] + "master.m3u8"@
                &&& plan.variant_dirs[i] == below
                &&& plan.outputs[i].path == below + seq!['/'] + "index.m3u8"@
                &&& plan.outputs[i].format_opts.contains(
                    ("hls_segment_filename"@, below + seq!['/'] + "segment_%03d.ts"@),
                )
            }
            &&& !s.adaptive ==> {
                &&& plan.outputs[i].path == dir + seq!['/'] + "index.m3u8"@
                &&& plan.outputs[i].format_opts.contains(
                    ("hls_segment_filename"@, dir + seq!['/'] + key + "_%03d.ts"@),
                )
            }
        }),
{
    let plan = plan_for(s, key, maxrates);
    let dir = s.hls_path + seq!['/'] + key;
    reveal_strlit("master.m3u8");
    reveal_strlit("index.m3u8");
    reveal_strlit("segment_%03d.ts");
    assert(key[0] != '/');
    assert(key.last() != '/');
    law_names_stand_below_directories(s.hls_path, key);
    assert(dir.last() == key.last());
    if s.adaptive {
        let name = s.ladder[i].name;
        let below = dir + seq!['/'] + name;
        assert(name[0] != '/');
        assert(name.last() != '/');
        law_names_stand_below_directories(dir, "master.m3u8"@);
        law_names_stand_below_directories(dir, name);
        assert(below.last() == name.last());
        law_names_stand_below_directories(below, "index.m3u8"@);
        law_names_stand_below_directories(below, "segment_%03d.ts"@);
        assert(plan.outputs[i].format_opts[4] == (
            "hls_segment_filename"@,
            below + seq!['/'] + "segment_%03d.ts"@,
        ));
    } else {
        let file = key + "_%03d.ts"@;
        assert(file[0] == key[0]);
        law_names_stand_below_directories(dir, "index.m3u8"@);
        law_names_stand_below_directories(dir, file);
        assert(dir + seq!['/'] + file =~= dir + seq!['/'] + key + "_%03d.ts"@);
        assert(plan.outputs[i].format_opts[3] == (
            "hls_segment_filename"@,
            dir + seq!['/'] + key + "_%03d.ts"@,
        ));
    }
}

/// A stream is read from the host and port of the settings under its own key, with the time
/// limit of the settings.
pub proof fn law_stream_is_read_under_its_key(s: LaunchSettings, key: Seq<char>, maxrates: Seq<u32>)
    ensures
        plan_for(s, key, maxrates).rtmp_url == "rtmp://"@ + s.host + ":"@ + s.port + "/live/"@ + key,
        plan_for(s, key, maxrates).input_opts.len() == 3,
        plan_for(s, key, maxrates).input_opts.contains(("rw_timeout"@, decimal(s.rw_timeout as nat))),
        plan_for(s, key, maxrates).input_opts.contains(("analyzeduration"@, "2000000"@)),
        plan_for(s, key, maxrates).input_opts.contains(("probesize"@, "1M"@)),
{
    let opts = plan_for(s, key, maxrates).input_opts;
    assert(opts[0] == ("rw_timeout"@, decimal(s.rw_timeout as nat)));
    assert(opts[1] == ("analyzeduration"@, "2000000"@));
    assert(opts[2] == ("probesize"@, "1M"@));
}

/// The line of the list of renditions that tells of a rung.
spec fn told(v: VariantView) -> Seq<char> {
    "#EXT-X-STREAM-INF:BANDWIDTH="@ + decimal((1000 * (v.bitrate + v.audio_bitrate)) as nat)
        + ",RESOLUTION="@ + decimal(v.width as nat) + "x"@ + decimal(v.height as nat) + ",FRAMERATE="@
        + decimal(v.framerate as nat)
}

proof fn lemma_entry(v: VariantView)
    requires
        !v.name.contains('\n'),
    ensures
        master_entry(v) == told(v) + seq!['\n'] + (v.name + "/index.m3u8"@) + seq!['\n'],
        !told(v).contains('\n'),
        !(v.name + "/index.m3u8"@).contains('\n'),
{
    reveal_strlit("#EXT-X-STREAM-INF:BANDWIDTH=");
    reveal_strlit(",RESOLUTION=");
    reveal_strlit("x");
    reveal_strlit(",FRAMERATE=");
    reveal_strlit("\n");
    reveal_strlit("/index.m3u8");
    reveal_strlit("/index.m3u8\n");
    let bits = (1000 * (v.bitrate + v.audio_bitrate)) as nat;
    lemma_numbers_have_only_digits(bits, '\n');
    lemma_numbers_have_only_digits(v.width as nat, '\n');
    lemma_numbers_have_only_digits(v.height as nat, '\n');
    lemma_numbers_have_only_digits(v.framerate as nat, '\n');
    let a = "#EXT-X-STREAM-INF:BANDWIDTH="@ + decimal(bits);
    assert(!a.contains('\n'));
    let b = a + ",RESOLUTION="@ + decimal(v.width as nat);
    assert(!b.contains('\n'));
    let c = b + "x"@ + decimal(v.height as nat);
    assert(!c.contains('\n'));
    assert(told(v) =~= c + ",FRAMERATE="@ + decimal(v.framerate as nat));
    assert("/index.m3u8\n"@ =~= "/index.m3u8"@ + seq!['\n']);
    assert("\n"@ =~= seq!['\n']);
    assert(master_entry(v) =~= told(v) + seq!['\n'] + (v.name + "/index.m3u8"@) + seq!['\n']);
}

proof fn lemma_master_lines(ladder: Seq<VariantView>, n: nat, text: Seq<char>)
    requires
        n <= ladder.len(),
        forall|i: int| 0 <= i < ladder.len() ==> !(#[trigger] ladder[i]).name.contains('\n'),
        master_text(ladder, n) == text + seq!['\n'],
    ensures
        split(text, '\n').len() == 2 + 2 * n,
        split(text, '\n')[0] == "#EXTM3U"@,
        split(text, '\n')[1] == "#EXT-X-VERSION:3"@,
        forall|i: int|
            #![trigger ladder[i]]
            0 <= i < n ==> split(text, '\n')[2 + 2 * i] == told(ladder[i]) && split(text, '\n')[3 + 2
                * i] == ladder[i].name + "/index.m3u8"@,
    decreases n,
{
    if n == 0 {
        reveal_strlit("#EXTM3U\n#EXT-X-VERSION:3\n");
        reveal_strlit("#EXTM3U");
        reveal_strlit("#EXT-X-VERSION:3");
        let first = "#EXTM3U"@;
        let second = "#EXT-X-VERSION:3"@;
        assert(master_text(ladder, n) =~= first + seq!['\n'] + second + seq!['\n']);
        assert(text =~= master_text(ladder, n).drop_last());
        assert(text =~= first + seq!['\n'] + second);
        lemma_split_single(first, '\n');
        lemma_split_extend(first, second, '\n');
    } else {
        let m = (n - 1) as nat;
        let v = ladder[m as int];
        lemma_entry(v);
        lemma_ends_with_line_feed(ladder, m);
        let so_far = master_text(ladder, m).drop_last();
        assert(master_text(ladder, m) =~= so_far + seq!['\n']);
        lemma_master_lines(ladder, m, so_far);
        let (a, b) = (told(v), v.name + "/index.m3u8"@);
        assert(text =~= master_text(ladder, n).drop_last());
        assert(text =~= so_far + seq!['\n'] + a + seq!['\n'] + b);
        lemma_split_extend(so_far, a, '\n');
        lemma_split_extend(so_far + seq!['\n'] + a, b, '\n');
        let ls = split(so_far, '\n');
        assert(split(text, '\n') == ls.push(a).push(b));
        assert forall|i: int| #![trigger ladder[i]] 0 <= i < n implies split(text, '\n')[2 + 2 * i]
            == told(ladder[i]) && split(text, '\n')[3 + 2 * i] == ladder[i].name + "/index.m3u8"@ by {
            if i < m {
                assert(ls[2 + 2 * i] == told(ladder[i]));
            }
        }
    }
}

proof fn lemma_ends_with_line_feed(ladder: Seq<VariantView>, n: nat)
    ensures
        master_text(ladder, n).len() > 0,
        master_text(ladder, n).last() == '\n',
{
    reveal_strlit("#EXTM3U\n#EXT-X-VERSION:3\n");
    reveal_strlit("/index.m3u8\n");
    if n > 0 {
        assert(master_entry(ladder[n - 1]).last() == '\n');
    }
}

/// The list of renditions is read line by line: behind the head, two lines for each rung in
/// the order of the ladder. The first tells the bits per second of picture and sound
/// together, the size and the frame rate of the rung, and the second names its playlist.
pub proof fn law_list_tells_of_each_rung(
    s: LaunchSettings,
    key: Seq<char>,
    maxrates: Seq<u32>,
    i: int,
)
    requires
        s.adaptive,
        0 <= i < s.ladder.len(),
        forall|k: int| 0 <= k < s.ladder.len() ==> !(#[trigger] s.ladder[k]).name.contains('\n'),
    ensures
        ({
            let list = split((plan_for(s, key, maxrates).master_playlist->0).1, '\n');
            let rung = s.ladder[i];
            &&& list.len() == 2 + 2 * s.ladder.len() + 1
            &&& list.last().len() == 0
            &&& list[0] == "#EXTM3U"@
            &&& list[1] == "#EXT-X-VERSION:3"@
            &&& list[2 + 2 * i] == "#EXT-X-STREAM-INF:BANDWIDTH="@ + decimal(
                (1000 * (rung.bitrate + rung.audio_bitrate)) as nat,
            ) + ",RESOLUTION="@ + decimal(rung.width as nat) + "x"@ + decimal(rung.height as nat)
                + ",FRAMERATE="@ + decimal(rung.framerate as nat)
            &&& list[3 + 2 * i] == rung.name + "/index.m3u8"@
        }),
{
    let n = s.ladder.len();
    let whole = master_text(s.ladder, n);
    lemma_ends_with_line_feed(s.ladder, n);
    let text = whole.drop_last();
    assert(whole =~= text + seq!['\n']);
    lemma_master_lines(s.ladder, n, text);
    let nothing = Seq::<char>::empty();
    assert(whole =~= text + seq!['\n'] + nothing);
    lemma_split_extend(text, nothing, '\n');
}

} // verus!
