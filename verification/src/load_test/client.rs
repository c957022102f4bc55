//! A player: which URLs it asks for, what it reads in playlists, and which segments it
//! still wants.
use crate::handlers::common::lemma_endings;
use crate::handlers::playlist::{redirect_path, redirect_playlist};
use crate::text::{
    after, cat2, cat4, decimal, ends_with, find, has_part, has_prefix, has_suffix,
    law_decimal_reads_back, lemma_split_concat, lemma_split_extend, lemma_split_single, lines,
    lines_of, number, number_up_to, occurs_at, parse_number, split, split_text, starts_with, text_of,
    texts, without_cr,
};
use vstd::prelude::*;
use vstd::string::*;

verus! {

broadcast use vstd::string::group_string_axioms;

/// A segment of a playlist. Its duration is the text that the playlist gives for it, if
/// any.
#[derive(Debug, Clone, PartialEq)]
pub struct Segment {
    pub uri: String,
    pub duration: Option<String>,
    pub sequence: u64,
}

/// A playlist. Its target duration is the text that it gives, if any.
#[derive(Debug, Clone, PartialEq)]
pub struct HlsPlaylist {
    pub segments: Vec<Segment>,
    pub target_duration: Option<String>,
    pub media_sequence: u64,
    pub is_live: bool,
}

/// What a playlist says of a segment.
pub struct SegmentView {
    pub uri: Seq<char>,
    pub duration: Option<Seq<char>>,
    pub sequence: u64,
}

/// What a playlist says.
pub struct PlaylistView {
    pub segments: Seq<SegmentView>,
    pub target_duration: Option<Seq<char>>,
    pub media_sequence: u64,
    pub is_live: bool,
}

impl View for Segment {
    type V = SegmentView;

    open spec fn view(&self) -> SegmentView {
        SegmentView { uri: self.uri@, duration: text_of(self.duration), sequence: self.sequence }
    }
}

/// What a playlist says of its segments.
pub open spec fn segments_of(v: Seq<Segment>) -> Seq<SegmentView> {
    v.map_values(|s: Segment| s@)
}

impl View for HlsPlaylist {
    type V = PlaylistView;

    open spec fn view(&self) -> PlaylistView {
        PlaylistView {
            segments: segments_of(self.segments@),
            target_duration: text_of(self.target_duration),
            media_sequence: self.media_sequence,
            is_live: self.is_live,
        }
    }
}

pub open spec fn gives_target(line: Seq<char>) -> bool {
    has_prefix(line, "#EXT-X-TARGETDURATION:"@)
}

pub open spec fn gives_sequence(line: Seq<char>) -> bool {
    has_prefix(line, "#EXT-X-MEDIA-SEQUENCE:"@)
}

pub open spec fn gives_duration(line: Seq<char>) -> bool {
    has_prefix(line, "#EXTINF:"@)
}

pub open spec fn ends_list(line: Seq<char>) -> bool {
    has_prefix(line, "#EXT-X-ENDLIST"@)
}

/// A line that names a segment: no tag that is understood, and a `.ts` file.
pub open spec fn names_segment(line: Seq<char>) -> bool {
    &&& !gives_target(line)
    &&& !gives_sequence(line)
    &&& !gives_duration(line)
    &&& !ends_list(line)
    &&& has_suffix(line, ".ts"@)
}

/// The number behind a tag; zero where it is none.
pub open spec fn sequence_in(line: Seq<char>) -> u64 {
    match number_up_to(line.skip(22), u64::MAX as nat) {
        Some(n) => n as u64,
        None => 0,
    }
}

/// What was read of a playlist: the list so far, the duration given for the next
/// segment, and its number.
pub struct ReadState {
    pub list: PlaylistView,
    pub duration: Option<Seq<char>>,
    pub counter: u64,
}

impl ReadState {
    /// Nothing read.
    pub open spec fn initial() -> ReadState {
        ReadState {
            list: PlaylistView {
                segments: Seq::empty(),
                target_duration: None,
                media_sequence: 0,
                is_live: true,
            },
            duration: None,
            counter: 0,
        }
    }

    /// One more line read.
    pub open spec fn read(self, line: Seq<char>) -> ReadState {
        if gives_target(line) {
            ReadState {
                list: PlaylistView { target_duration: Some(line.skip(22)), ..self.list },
                ..self
            }
        } else if gives_sequence(line) {
            ReadState {
                list: PlaylistView { media_sequence: sequence_in(line), ..self.list },
                counter: sequence_in(line),
                ..self
            }
        } else if gives_duration(line) {
            ReadState { duration: Some(split(line.skip(8), ',')[0]), ..self }
        } else if ends_list(line) {
            ReadState { list: PlaylistView { is_live: false, ..self.list }, ..self }
        } else if has_suffix(line, ".ts"@) {
            ReadState {
                list: PlaylistView {
                    segments: self.list.segments.push(
                        SegmentView { uri: line, duration: self.duration, sequence: self.counter },
                    ),
                    ..self.list
                },
                duration: None,
                counter: self.counter.wrapping_add(1),
            }
        } else {
            self
        }
    }
}

/// What was read of a playlist after some lines.
pub open spec fn read_lines(ls: Seq<Seq<char>>) -> ReadState
    decreases ls.len(),
{
    if ls.len() == 0 {
        ReadState::initial()
    } else {
        read_lines(ls.drop_last()).read(ls.last())
    }
}

/// What a playlist says.
pub open spec fn playlist_in(content: Seq<char>) -> PlaylistView {
    read_lines(lines(content)).list
}

/// A line that leads on with a session.
pub open spec fn leads_on(line: Seq<char>) -> bool {
    has_prefix(line, "/live/"@) && has_part(line, "hls_ctx="@)
}

/// Where a text first stands in another.
pub open spec fn is_first_place(s: Seq<char>, needle: Seq<char>, at: int) -> bool {
    occurs_at(s, needle, at) && forall|j: int| 0 <= j < at ==> !#[trigger] occurs_at(s, needle, j)
}

/// The session in a line that leads on.
pub open spec fn context_in(line: Seq<char>) -> Seq<char> {
    line.skip((choose|at: int| is_first_place(line, "hls_ctx="@, at)) + 8)
}

/// The session that a playlist gives: that of the first line that leads on.
pub open spec fn session_in(ls: Seq<Seq<char>>) -> Option<Seq<char>>
    decreases ls.len(),
{
    if ls.len() == 0 {
        None
    } else if leads_on(ls[0]) {
        Some(context_in(ls[0]))
    } else {
        session_in(ls.drop_first())
    }
}

/// A player of one stream.
#[derive(Debug, PartialEq)]
pub struct HlsClient {
    pub base_url: String,
    pub stream_key: String,
    pub session_id: Option<String>,
    pub last_sequence: u64,
}

/// The number behind a tag.
fn sequence_of(line: &str) -> (r: u64)
    requires
        gives_sequence(line@),
    ensures
        r == sequence_in(line@),
{
    proof {
        reveal_strlit("#EXT-X-MEDIA-SEQUENCE:");
    }
    match parse_number(after(line, 22).as_str(), u64::MAX) {
        Some(n) => n,
        None => 0,
    }
}

/// The session in a line that leads on.
fn context_of(line: &str) -> (r: Option<String>)
    ensures
        match r {
            Some(ctx) => leads_on(line@) && ctx@ == context_in(line@),
            None => !leads_on(line@),
        },
{
    proof {
        reveal_strlit("hls_ctx=");
    }
    if !starts_with(line, "/live/") {
        return None;
    }
    match find(line, "hls_ctx=") {
        Some(at) => {
            proof {
                assert(is_first_place(line@, "hls_ctx="@, at as int));
                let other = choose|k: int| is_first_place(line@, "hls_ctx="@, k);
                assert(is_first_place(line@, "hls_ctx="@, other));
                assert(other == at) by {
                    if other < at {
                        assert(occurs_at(line@, "hls_ctx="@, other));
                    }
                    if at < other {
                        assert(occurs_at(line@, "hls_ctx="@, at as int));
                    }
                }
            }
            let size: usize = line.unicode_len();
            assert(at + 8 <= size);
            Some(after(line, at + 8))
        },
        None => None,
    }
}

impl HlsClient {
    /// A player that has asked for nothing.
    pub fn new(base_url: String, stream_key: String) -> (r: Self)
        ensures
            r == (HlsClient { base_url, stream_key, session_id: None, last_sequence: 0 }),
    {
        HlsClient { base_url, stream_key, session_id: None, last_sequence: 0 }
    }

    /// Where the first playlist is.
    pub fn master_url(&self) -> (r: String)
        ensures
            r@ == self.base_url@ + "/live/"@ + self.stream_key@ + "/index.m3u8"@,
    {
        cat4(self.base_url.as_str(), "/live/", self.stream_key.as_str(), "/index.m3u8")
    }

    /// Takes the session that the first playlist gives. Without one, the player goes on
    /// with what it has.
    pub fn fetch_master_playlist(&mut self, content: &str)
        ensures
            final(self).base_url == old(self).base_url,
            final(self).stream_key == old(self).stream_key,
            final(self).last_sequence == old(self).last_sequence,
            text_of(final(self).session_id) == (match session_in(lines(content@)) {
                Some(ctx) => Some(ctx),
                None => text_of(old(self).session_id),
            }),
    {
        let ls = lines_of(content);
        let ghost all = lines(content@);
        let mut i: usize = 0;
        assert(all.skip(0) =~= all);
        while i < ls.len()
            invariant
                0 <= i <= ls@.len(),
                texts(ls@) == all,
                session_in(all) == session_in(all.skip(i as int)),
                *self == *old(self),
                all == lines(content@),
            decreases ls@.len() - i,
        {
            let line = ls[i].as_str();
            assert(all.skip(i as int)[0] == line@);
            assert(all.skip(i as int).drop_first() =~= all.skip(i + 1));
            if let Some(ctx) = context_of(line) {
                self.session_id = Some(ctx);
                return;
            }
            i = i + 1;
        }
    }

    /// Where the playlist with the segments is.
    pub fn playlist_url(&self) -> (r: String)
        ensures
            r@ == self.base_url@ + "/live/"@ + self.stream_key@ + (match self.session_id {
                Some(id) => "/index.m3u8?hls_ctx="@ + id@,
                None => "/index.m3u8"@,
            }),
    {
        match &self.session_id {
            Some(id) => {
                let file = cat2("/index.m3u8?hls_ctx=", id.as_str());
                cat4(self.base_url.as_str(), "/live/", self.stream_key.as_str(), file.as_str())
            },
            None => self.master_url(),
        }
    }

    /// Reads a playlist.
    pub fn parse_playlist(content: &str) -> (r: HlsPlaylist)
        ensures
            r@ == playlist_in(content@),
    {
        let ls = lines_of(content);
        let ghost all = lines(content@);
        let mut list = HlsPlaylist {
            segments: Vec::new(),
            target_duration: None,
            media_sequence: 0,
            is_live: true,
        };
        let mut duration: Option<String> = None;
        let mut counter: u64 = 0;
        let mut i: usize = 0;
        proof {
            reveal_strlit("#EXT-X-TARGETDURATION:");
            reveal_strlit("#EXTINF:");
            assert(all.take(0) =~= Seq::<Seq<char>>::empty());
            assert(segments_of(list.segments@) =~= Seq::<SegmentView>::empty());
        }
        while i < ls.len()
            invariant
                0 <= i <= ls@.len(),
                texts(ls@) == all,
                "#EXT-X-TARGETDURATION:"@.len() == 22,
                "#EXTINF:"@.len() == 8,
                read_lines(all.take(i as int)) == (ReadState {
                    list: list@,
                    duration: text_of(duration),
                    counter,
                }),
            decreases ls@.len() - i,
        {
            let ghost before = read_lines(all.take(i as int));
            let ghost named = segments_of(list.segments@);
            let line = ls[i].as_str();
            assert(all.take(i + 1).drop_last() =~= all.take(i as int));
            assert(all.take(i + 1).last() == line@);
            if starts_with(line, "#EXT-X-TARGETDURATION:") {
                list.target_duration = Some(after(line, 22));
            } else if starts_with(line, "#EXT-X-MEDIA-SEQUENCE:") {
                let n: u64 = sequence_of(line);
                list.media_sequence = n;
                counter = n;
            } else if starts_with(line, "#EXTINF:") {
                let parts = split_text(after(line, 8).as_str(), ',');
                proof {
                    crate::text::lemma_split_pieces(line@.skip(8), ',');
                    assert(texts(parts@)[0] == parts@[0]@);
                }
                duration = Some(parts[0].clone());
            } else if starts_with(line, "#EXT-X-ENDLIST") {
                list.is_live = false;
            } else if ends_with(line, ".ts") {
                let segment = Segment { uri: line.to_owned(), duration, sequence: counter };
                list.segments.push(segment);
                counter = counter.wrapping_add(1);
                duration = None;
                assert(segments_of(list.segments@) =~= named.push(segment@));
            }
            i = i + 1;
        }
        assert(all.take(i as int) =~= all);
        list
    }

    /// The first segment from place `from` on that is newer than the last one played.
    pub fn next_segment(&self, playlist: &HlsPlaylist, from: usize) -> (r: Option<usize>)
        ensures
            match r {
                Some(i) => {
                    &&& from <= i < playlist.segments@.len()
                    &&& playlist.segments@[i as int].sequence > self.last_sequence
                    &&& forall|j: int|
                        from <= j < i ==> (#[trigger] playlist.segments@[j]).sequence
                            <= self.last_sequence
                },
                None => forall|j: int|
                    from <= j < playlist.segments@.len() ==> (#[trigger] playlist.segments@[j]).sequence
                        <= self.last_sequence,
            },
    {
        let mut i: usize = from;
        while i < playlist.segments.len()
            invariant
                from <= i,
                forall|j: int|
                    from <= j < i && j < playlist.segments@.len() ==> (
                    #[trigger] playlist.segments@[j]).sequence <= self.last_sequence,
            decreases playlist.segments@.len() - i,
        {
            if playlist.segments[i].sequence > self.last_sequence {
                return Some(i);
            }
            i = i + 1;
        }
        None
    }

    /// Where a segment is.
    pub fn segment_url(&self, segment: &Segment) -> (r: String)
        ensures
            r@ == self.base_url@ + segment.uri@,
    {
        cat2(self.base_url.as_str(), segment.uri.as_str())
    }

    /// Notes that a segment was played.
    pub fn downloaded(&mut self, segment: &Segment)
        ensures
            *final(self) == (HlsClient { last_sequence: segment.sequence, ..*old(self) }),
    {
        self.last_sequence = segment.sequence;
    }

    /// Whether a player goes on who has played for some time; one that was given no
    /// time plays for ever.
    pub fn keeps_playing(elapsed_nanos: u128, duration_nanos: u128) -> (r: bool)
        ensures
            r == (duration_nanos == 0 || elapsed_nanos < duration_nanos),
    {
        duration_nanos == 0 || elapsed_nanos < duration_nanos
    }
}

// ---------------------------------------------------------------------------
// Laws
// ---------------------------------------------------------------------------

/// A player finds in a playlist exactly the lines that name segments, in their order.
pub proof fn law_segments_are_the_named_lines(ls: Seq<Seq<char>>)
    ensures
        read_lines(ls).list.segments.map_values(|s: SegmentView| s.uri) == ls.filter(
            |l: Seq<char>| names_segment(l),
        ),
    decreases ls.len(),
{
    let test = |l: Seq<char>| names_segment(l);
    let uri = |s: SegmentView| s.uri;
    reveal(Seq::filter);
    if ls.len() == 0 {
        assert(read_lines(ls).list.segments.map_values(uri) =~= ls.filter(test));
    } else {
        law_segments_are_the_named_lines(ls.drop_last());
        let before = read_lines(ls.drop_last()).list.segments;
        let now = read_lines(ls).list.segments;
        if names_segment(ls.last()) {
            assert(now.map_values(uri) =~= before.map_values(uri).push(ls.last()));
        } else {
            assert(now == before);
        }
    }
}

/// Where no segment comes before the number of the first one, the segments are numbered
/// from that number on, without a gap.
pub proof fn law_segments_are_numbered(ls: Seq<Seq<char>>)
    requires
        forall|i: int, j: int|
            0 <= i < j < ls.len() && names_segment(#[trigger] ls[i]) ==> !gives_sequence(#[trigger] ls[j]),
        read_lines(ls).list.media_sequence + ls.len() <= u64::MAX,
    ensures
        forall|j: int|
            0 <= j < read_lines(ls).list.segments.len() ==> (#[trigger] read_lines(
                ls,
            ).list.segments[j]).sequence == read_lines(ls).list.media_sequence + j,
{
    assert(ls.take(ls.len() as int) =~= ls);
    lemma_numbered(ls, ls.len() as int);
}

proof fn lemma_numbered(ls: Seq<Seq<char>>, n: int)
    requires
        0 <= n <= ls.len(),
        forall|i: int, j: int|
            0 <= i < j < ls.len() && names_segment(#[trigger] ls[i]) ==> !gives_sequence(#[trigger] ls[j]),
        read_lines(ls.take(n)).list.media_sequence + n <= u64::MAX,
    ensures
        ({
            let st = read_lines(ls.take(n));
            &&& st.list.segments.len() <= n
            &&& st.counter == st.list.media_sequence + st.list.segments.len()
            &&& forall|j: int|
                0 <= j < st.list.segments.len() ==> (#[trigger] st.list.segments[j]).sequence
                    == st.list.media_sequence + j
            &&& st.list.segments.len() > 0 ==> exists|i: int|
                0 <= i < n && names_segment(#[trigger] ls[i])
        }),
    decreases n,
{
    if n > 0 {
        let line = ls[n - 1];
        assert(ls.take(n).drop_last() =~= ls.take(n - 1));
        assert(ls.take(n).last() == line);
        let before = read_lines(ls.take(n - 1));
        if gives_sequence(line) && !gives_target(line) {
            lemma_no_segments(ls, n - 1);
        } else {
            lemma_numbered(ls, n - 1);
            if names_segment(line) {
                assert(names_segment(ls[n - 1]));
            }
        }
    }
}

proof fn lemma_no_segments(ls: Seq<Seq<char>>, n: int)
    requires
        0 <= n < ls.len(),
        forall|i: int| 0 <= i < n ==> !names_segment(#[trigger] ls[i]),
    ensures
        read_lines(ls.take(n)).list.segments.len() == 0,
    decreases n,
{
    if n > 0 {
        assert(ls.take(n).drop_last() =~= ls.take(n - 1));
        assert(ls.take(n).last() == ls[n - 1]);
        lemma_no_segments(ls, n - 1);
    }
}

/// What a server gives a viewer, a player takes: the session in the playlist that
/// answers a first request is the session that the player goes on with.
pub proof fn law_player_takes_the_session(key: Seq<char>, session: Seq<char>, has_master: bool)
    requires
        !key.contains('\n'),
        !session.contains('\n'),
        !has_part(key, "hls_ctx="@),
    ensures
        session_in(lines(redirect_playlist(key, session, has_master))) == Some(session),
{
    let whole = redirect_playlist(key, session, has_master);
    let path = redirect_path(key, session, has_master);
    let first = "#EXTM3U"@;
    let second = "#EXT-X-STREAM-INF:BANDWIDTH=1,AVERAGE-BANDWIDTH=1"@;
    reveal_strlit("#EXTM3U");
    reveal_strlit("#EXT-X-STREAM-INF:BANDWIDTH=1,AVERAGE-BANDWIDTH=1");
    reveal_strlit("#EXTM3U\n#EXT-X-STREAM-INF:BANDWIDTH=1,AVERAGE-BANDWIDTH=1\n");
    reveal_strlit("/live/");
    reveal_strlit("/master.m3u8?hls_ctx=");
    reveal_strlit("/index.m3u8?hls_ctx=");
    reveal_strlit("hls_ctx=");
    assert("#EXTM3U\n#EXT-X-STREAM-INF:BANDWIDTH=1,AVERAGE-BANDWIDTH=1\n"@ =~= first + seq!['\n'] + second
        + seq!['\n']);
    assert(whole =~= first + seq!['\n'] + second + seq!['\n'] + path);
    let file = if has_master {
        "/master.m3u8?hls_ctx="@
    } else {
        "/index.m3u8?hls_ctx="@
    };
    assert(path =~= "/live/"@ + key + file + session);
    assert forall|i: int| 0 <= i < path.len() implies path[i] != '\n' by {
        if 6 <= i < 6 + key.len() {
            assert(path[i] == key[i - 6]);
        } else if i >= 6 + key.len() + file.len() {
            assert(path[i] == session[i - 6 - key.len() - file.len()]);
        }
    }
    lemma_split_single(first, '\n');
    lemma_split_extend(first, second, '\n');
    lemma_split_extend(first + seq!['\n'] + second, path, '\n');
    assert(split(whole, '\n') =~= seq![first, second, path]);
    let ls = lines(whole);
    assert(without_cr(first) == first && without_cr(second) == second);
    assert(ls =~= seq![first, second, path]);
    assert(!leads_on(first)) by {
        assert(first.take(6)[0] == '#');
    }
    assert(!leads_on(second)) by {
        assert(second.take(6)[0] == '#');
    }
    assert(ls.drop_first() =~= seq![second, path]);
    assert(ls.drop_first().drop_first() =~= seq![path]);
    assert(path.take(6) =~= "/live/"@);
    let at = 6 + key.len() + file.len() - 8;
    assert(path.subrange(at, at + 8) =~= "hls_ctx="@);
    assert(occurs_at(path, "hls_ctx="@, at));
    assert forall|j: int| 0 <= j < at implies !#[trigger] occurs_at(path, "hls_ctx="@, j) by {
        if occurs_at(path, "hls_ctx="@, j) {
            let found = path.subrange(j, j + 8);
            assert(found[0] == 'h');
            assert(path[j] == 'h');
            if 6 <= j < 6 + key.len() {
                if j + 8 <= 6 + key.len() {
                    assert(key.subrange(j - 6, j - 6 + 8) =~= found);
                    assert(occurs_at(key, "hls_ctx="@, j - 6));
                } else {
                    let k = 6 + key.len() - j;
                    assert(path[j + k] == '/');
                    assert(found[k] == '/');
                }
            } else if j >= 6 + key.len() {
                assert(path[j] == file[j - 6 - key.len()]);
            }
        }
    }
    assert(is_first_place(path, "hls_ctx="@, at));
    let other = choose|k: int| is_first_place(path, "hls_ctx="@, k);
    assert(is_first_place(path, "hls_ctx="@, other));
    assert(other == at) by {
        if other < at {
            assert(occurs_at(path, "hls_ctx="@, other));
        }
        if at < other {
            assert(occurs_at(path, "hls_ctx="@, at));
        }
    }
    assert(path.skip(at + 8) =~= session);
    reveal_with_fuel(session_in, 4);
}

/// A tag line tells what stands behind the tag and changes nothing else: the target duration,
/// the number of the next segment, the duration of the next segment up to a comma, or that
/// the list ends. Before any line is read, there is no segment and the list is live.
pub proof fn law_tags_tell_what_follows_them(
    st: ReadState,
    value: Seq<char>,
    title: Seq<char>,
    n: u64,
    bad: Seq<char>,
)
    requires
        !value.contains(','),
        number(bad) is None,
    ensures
        read_lines(Seq::empty()).list.segments.len() == 0,
        read_lines(Seq::empty()).list.is_live,
        read_lines(Seq::empty()).list.media_sequence == 0,
        read_lines(Seq::empty()).list.target_duration is None,
        st.read("#EXT-X-TARGETDURATION:"@ + value) == (ReadState {
            list: PlaylistView { target_duration: Some(value), ..st.list },
            ..st
        }),
        st.read("#EXT-X-MEDIA-SEQUENCE:"@ + decimal(n as nat)) == (ReadState {
            list: PlaylistView { media_sequence: n, ..st.list },
            counter: n,
            ..st
        }),
        st.read("#EXT-X-MEDIA-SEQUENCE:"@ + bad) == (ReadState {
            list: PlaylistView { media_sequence: 0, ..st.list },
            counter: 0,
            ..st
        }),
        st.read("#EXTINF:"@ + value) == (ReadState { duration: Some(value), ..st }),
        st.read("#EXTINF:"@ + value + seq![','] + title) == (ReadState { duration: Some(value), ..st }),
        st.read("#EXT-X-ENDLIST"@ + value) == (ReadState {
            list: PlaylistView { is_live: false, ..st.list },
            ..st
        }),
{
    reveal_strlit("#EXT-X-TARGETDURATION:");
    reveal_strlit("#EXT-X-MEDIA-SEQUENCE:");
    reveal_strlit("#EXTINF:");
    reveal_strlit("#EXT-X-ENDLIST");
    let target = "#EXT-X-TARGETDURATION:"@ + value;
    assert(target.take(22) =~= "#EXT-X-TARGETDURATION:"@);
    assert(target.skip(22) =~= value);
    let sequence = "#EXT-X-MEDIA-SEQUENCE:"@ + decimal(n as nat);
    lemma_sequence_tag(sequence, decimal(n as nat));
    law_decimal_reads_back(n as nat);
    lemma_sequence_tag("#EXT-X-MEDIA-SEQUENCE:"@ + bad, bad);
    let plain = "#EXTINF:"@ + value;
    lemma_duration_tag(plain, value);
    lemma_split_single(value, ',');
    let titled = "#EXTINF:"@ + value + seq![','] + title;
    assert(titled =~= "#EXTINF:"@ + (value + seq![','] + title));
    lemma_duration_tag(titled, value + seq![','] + title);
    lemma_split_concat(value, title, ',');
    let end = "#EXT-X-ENDLIST"@ + value;
    assert(end.take(14) =~= "#EXT-X-ENDLIST"@);
    assert(!gives_target(end)) by {
        if gives_target(end) {
            assert(end.take(22)[7] == 'T');
            assert(end[7] == 'E');
        }
    }
    assert(!gives_sequence(end)) by {
        if gives_sequence(end) {
            assert(end.take(22)[7] == 'M');
            assert(end[7] == 'E');
        }
    }
    assert(!gives_duration(end)) by {
        if gives_duration(end) {
            assert(end.take(8)[4] == 'I');
            assert(end[4] == '-');
        }
    }
}

proof fn lemma_sequence_tag(line: Seq<char>, value: Seq<char>)
    requires
        line == "#EXT-X-MEDIA-SEQUENCE:"@ + value,
    ensures
        gives_sequence(line),
        !gives_target(line),
        line.skip(22) == value,
{
    reveal_strlit("#EXT-X-TARGETDURATION:");
    reveal_strlit("#EXT-X-MEDIA-SEQUENCE:");
    assert(line.take(22) =~= "#EXT-X-MEDIA-SEQUENCE:"@);
    assert(line.skip(22) =~= value);
    if gives_target(line) {
        assert(line.take(22)[7] == 'T');
    }
}

proof fn lemma_duration_tag(line: Seq<char>, value: Seq<char>)
    requires
        line == "#EXTINF:"@ + value,
    ensures
        gives_duration(line),
        !gives_target(line),
        !gives_sequence(line),
        line.skip(8) == value,
{
    reveal_strlit("#EXT-X-TARGETDURATION:");
    reveal_strlit("#EXT-X-MEDIA-SEQUENCE:");
    reveal_strlit("#EXTINF:");
    assert(line.take(8) =~= "#EXTINF:"@);
    assert(line.skip(8) =~= value);
    assert(line[4] == 'I');
    if gives_target(line) {
        assert(line.take(22)[4] == '-');
    }
    if gives_sequence(line) {
        assert(line.take(22)[4] == '-');
    }
}

/// A line without `#` before it that ends in `.ts` is the next segment: it has the duration
/// and the number that were told for it, and the one behind it has the next number and no
/// duration yet. Any other line without `#` before it tells nothing.
pub proof fn law_segment_takes_what_was_told(st: ReadState, line: Seq<char>)
    requires
        line.len() == 0 || line[0] != '#',
        st.counter < u64::MAX,
    ensures
        ({
            let n = line.len() as int;
            let ends_in_ts = n >= 3 && line[n - 3] == '.' && line[n - 2] == 't' && line[n - 1] == 's';
            let after = st.read(line);
            &&& ends_in_ts ==> {
                &&& after.list.segments == st.list.segments.push(
                    SegmentView { uri: line, duration: st.duration, sequence: st.counter },
                )
                &&& after.duration is None
                &&& after.counter == st.counter + 1
                &&& after.list.is_live == st.list.is_live
                &&& after.list.target_duration == st.list.target_duration
                &&& after.list.media_sequence == st.list.media_sequence
            }
            &&& !ends_in_ts ==> after == st
        }),
{
    reveal_strlit("#EXT-X-TARGETDURATION:");
    reveal_strlit("#EXT-X-MEDIA-SEQUENCE:");
    reveal_strlit("#EXTINF:");
    reveal_strlit("#EXT-X-ENDLIST");
    lemma_endings(line);
    if line.len() > 0 {
        if gives_target(line) || gives_sequence(line) {
            assert(line.take(22)[0] == '#');
        }
        if gives_duration(line) {
            assert(line.take(8)[0] == '#');
        }
        if ends_list(line) {
            assert(line.take(14)[0] == '#');
        }
    }
}

/// A playlist gives no session exactly where none of its lines begins with `/live/` and has
/// `hls_ctx=` in it; else it gives that of the first such line, whatever follows.
pub proof fn law_first_leading_line_gives_session(ls: Seq<Seq<char>>, more: Seq<Seq<char>>)
    ensures
        session_in(ls) is None <==> forall|i: int|
            0 <= i < ls.len() ==> !(has_prefix(#[trigger] ls[i], "/live/"@) && has_part(
                ls[i],
                "hls_ctx="@,
            )),
        session_in(ls) is Some ==> session_in(ls + more) == session_in(ls),
        session_in(ls) is None ==> session_in(ls + more) == session_in(more),
    decreases ls.len(),
{
    if ls.len() == 0 {
        assert(ls + more =~= more);
    } else {
        let rest = ls.drop_first();
        law_first_leading_line_gives_session(rest, more);
        assert((ls + more).drop_first() =~= rest + more);
        assert((ls + more)[0] == ls[0]);
        assert forall|i: int| 0 <= i < rest.len() implies #[trigger] rest[i] == ls[i + 1] by {}
        if session_in(ls) is None {
            assert forall|i: int| 0 <= i < ls.len() implies !(has_prefix(#[trigger] ls[i], "/live/"@)
                && has_part(ls[i], "hls_ctx="@)) by {
                if i > 0 {
                    assert(rest[i - 1] == ls[i]);
                }
            }
        }
    }
}

} // verus!
