//! Reading requests and rewriting playlists.
use crate::handlers::playlist::lemma_three_components;
use crate::handlers::reply::{
    plain, plain_reply, retry_later, retry_later_reply, BodyView, Reply, ReplyView,
};
use crate::models::Stats;
use crate::text::{
    before, cat3, cat4, ends_with, has_prefix, has_suffix, join, join_texts, lemma_filter_all,
    lemma_join_concat, lemma_join_split, lemma_lines_concat, lemma_split_concat, lemma_split_extend,
    lemma_split_join, lemma_split_pieces, lemma_split_single, lines, lines_of,
    same_text, split, split_nonempty, split_nonempty_text, text_of, texts, without_cr,
};
use vstd::prelude::*;
use vstd::string::*;

verus! {

broadcast use vstd::string::group_string_axioms;

/// The part of a query that names a session.
#[derive(Debug, Clone, PartialEq)]
pub struct ContextQuery {
    pub hls_ctx: Option<String>,
}

/// The kinds of HLS requests.
#[derive(Debug, PartialEq)]
pub enum HlsRequestType {
    /// A first request without session, to be redirected so that the viewer gets one.
    InitialRequest { stream_key: String },
    /// A playlist: `master.m3u8`, `index.m3u8` or `variant/index.m3u8`.
    Playlist {
        stream_key: String,
        playlist_path: String,
        session: Option<String>,
        needs_url_rewrite: bool,
    },
    /// A segment: a `.ts` file.
    Segment { stream_key: String, segment_path: String },
}

/// What a request asks for.
pub enum RequestView {
    InitialRequest { stream_key: Seq<char> },
    Playlist {
        stream_key: Seq<char>,
        playlist_path: Seq<char>,
        session: Option<Seq<char>>,
        needs_url_rewrite: bool,
    },
    Segment { stream_key: Seq<char>, segment_path: Seq<char> },
}

impl View for HlsRequestType {
    type V = RequestView;

    open spec fn view(&self) -> RequestView {
        match self {
            HlsRequestType::InitialRequest { stream_key } => RequestView::InitialRequest {
                stream_key: stream_key@,
            },
            HlsRequestType::Playlist { stream_key, playlist_path, session, needs_url_rewrite } =>
                RequestView::Playlist {
                    stream_key: stream_key@,
                    playlist_path: playlist_path@,
                    session: text_of(*session),
                    needs_url_rewrite: *needs_url_rewrite,
                },
            HlsRequestType::Segment { stream_key, segment_path } => RequestView::Segment {
                stream_key: stream_key@,
                segment_path: segment_path@,
            },
        }
    }
}

/// What `key.m3u8` asks for: a first request for the stream.
pub open spec fn short_request(file: Seq<char>) -> Result<RequestView, Seq<char>> {
    if has_suffix(file, ".m3u8"@) && file.len() > 5 {
        Ok(RequestView::InitialRequest { stream_key: file.take(file.len() - 5) })
    } else {
        Err("Invalid path format"@)
    }
}

/// What `key/file` asks for.
pub open spec fn stream_request(
    key: Seq<char>,
    file: Seq<char>,
    session: Option<Seq<char>>,
) -> Result<RequestView, Seq<char>> {
    if has_suffix(file, ".m3u8"@) {
        if file == "index.m3u8"@ && session is None {
            Ok(RequestView::InitialRequest { stream_key: key })
        } else if file == "master.m3u8"@ {
            Ok(
                RequestView::Playlist {
                    stream_key: key,
                    playlist_path: file,
                    session,
                    needs_url_rewrite: false,
                },
            )
        } else if file == "index.m3u8"@ {
            Ok(
                RequestView::Playlist {
                    stream_key: key,
                    playlist_path: file,
                    session,
                    needs_url_rewrite: true,
                },
            )
        } else {
            Err("Unknown playlist file"@)
        }
    } else if has_suffix(file, ".ts"@) {
        Ok(RequestView::Segment { stream_key: key, segment_path: file })
    } else {
        Err("Invalid file type"@)
    }
}

/// What `key/variant/file` asks for.
pub open spec fn variant_request(
    key: Seq<char>,
    variant: Seq<char>,
    file: Seq<char>,
    session: Option<Seq<char>>,
) -> Result<RequestView, Seq<char>> {
    if file == "index.m3u8"@ {
        Ok(
            RequestView::Playlist {
                stream_key: key,
                playlist_path: variant + "/"@ + file,
                session,
                needs_url_rewrite: false,
            },
        )
    } else if has_suffix(file, ".ts"@) {
        Ok(RequestView::Segment { stream_key: key, segment_path: variant + "/"@ + file })
    } else {
        Err("Invalid variant file"@)
    }
}

/// What a path below the live root asks for, or what is wrong with it. Empty path
/// components count for nothing.
pub open spec fn request_for(path: Seq<char>, session: Option<Seq<char>>) -> Result<
    RequestView,
    Seq<char>,
> {
    let parts = split_nonempty(path, '/');
    if parts.len() == 0 {
        Err("Invalid path"@)
    } else if parts.len() == 1 {
        short_request(parts[0])
    } else if parts.len() == 2 {
        stream_request(parts[0], parts[1], session)
    } else if parts.len() == 3 {
        variant_request(parts[0], parts[1], parts[2], session)
    } else {
        Err("Invalid path depth"@)
    }
}

/// The path under which a segment of a stream is served.
pub open spec fn segment_url(stream_key: Seq<char>, name: Seq<char>) -> Seq<char> {
    "/live/"@ + stream_key + "/"@ + name
}

/// A playlist line with the name of a segment made into its path; any other line as it is.
pub open spec fn rewritten_line(line: Seq<char>, stream_key: Seq<char>) -> Seq<char> {
    if has_suffix(line, ".ts"@) {
        segment_url(stream_key, line)
    } else {
        line
    }
}

/// A playlist with the names of its segments made into paths.
pub open spec fn rewritten(content: Seq<char>, stream_key: Seq<char>) -> Seq<char> {
    join(lines(content).map_values(|l: Seq<char>| rewritten_line(l, stream_key)), "\n"@)
}

fn ask_short(file: &String) -> (r: Result<HlsRequestType, &'static str>)
    ensures
        match r {
            Ok(q) => short_request(file@) == Ok::<RequestView, Seq<char>>(q@),
            Err(e) => short_request(file@) == Err::<RequestView, Seq<char>>(e@),
        },
{
    proof {
        reveal_strlit(".m3u8");
    }
    if ends_with(file.as_str(), ".m3u8") {
        let size: usize = file.as_str().unicode_len();
        if size > 5 {
            return Ok(HlsRequestType::InitialRequest { stream_key: before(file.as_str(), size - 5) });
        }
    }
    Err("Invalid path format")
}

fn ask_stream(key: &String, file: &String, session: Option<String>) -> (r: Result<
    HlsRequestType,
    &'static str,
>)
    ensures
        match r {
            Ok(q) => stream_request(key@, file@, text_of(session)) == Ok::<RequestView, Seq<char>>(q@),
            Err(e) => stream_request(key@, file@, text_of(session)) == Err::<RequestView, Seq<char>>(e@),
        },
{
    if ends_with(file.as_str(), ".m3u8") {
        if same_text(file.as_str(), "index.m3u8") && session.is_none() {
            Ok(HlsRequestType::InitialRequest { stream_key: key.clone() })
        } else if same_text(file.as_str(), "master.m3u8") {
            Ok(
                HlsRequestType::Playlist {
                    stream_key: key.clone(),
                    playlist_path: file.clone(),
                    session,
                    needs_url_rewrite: false,
                },
            )
        } else if same_text(file.as_str(), "index.m3u8") {
            Ok(
                HlsRequestType::Playlist {
                    stream_key: key.clone(),
                    playlist_path: file.clone(),
                    session,
                    needs_url_rewrite: true,
                },
            )
        } else {
            Err("Unknown playlist file")
        }
    } else if ends_with(file.as_str(), ".ts") {
        Ok(HlsRequestType::Segment { stream_key: key.clone(), segment_path: file.clone() })
    } else {
        Err("Invalid file type")
    }
}

fn ask_variant(key: &String, variant: &String, file: &String, session: Option<String>) -> (r: Result<
    HlsRequestType,
    &'static str,
>)
    ensures
        match r {
            Ok(q) => variant_request(key@, variant@, file@, text_of(session)) == Ok::<
                RequestView,
                Seq<char>,
            >(q@),
            Err(e) => variant_request(key@, variant@, file@, text_of(session)) == Err::<
                RequestView,
                Seq<char>,
            >(e@),
        },
{
    if same_text(file.as_str(), "index.m3u8") {
        Ok(
            HlsRequestType::Playlist {
                stream_key: key.clone(),
                playlist_path: cat3(variant.as_str(), "/", file.as_str()),
                session,
                needs_url_rewrite: false,
            },
        )
    } else if ends_with(file.as_str(), ".ts") {
        Ok(
            HlsRequestType::Segment {
                stream_key: key.clone(),
                segment_path: cat3(variant.as_str(), "/", file.as_str()),
            },
        )
    } else {
        Err("Invalid variant file")
    }
}

/// Reads a path below the live root, with the session that the query names.
pub fn parse_hls_request(path: &str, session: Option<String>) -> (r: Result<
    HlsRequestType,
    &'static str,
>)
    ensures
        match r {
            Ok(q) => request_for(path@, text_of(session)) == Ok::<RequestView, Seq<char>>(q@),
            Err(e) => request_for(path@, text_of(session)) == Err::<RequestView, Seq<char>>(e@),
        },
{
    let parts = split_nonempty_text(path, '/');
    let ghost pieces = split_nonempty(path@, '/');
    assert(forall|i: int| 0 <= i < parts@.len() ==> pieces[i] == #[trigger] parts@[i]@);
    if parts.len() == 0 {
        Err("Invalid path")
    } else if parts.len() == 1 {
        ask_short(&parts[0])
    } else if parts.len() == 2 {
        ask_stream(&parts[0], &parts[1], session)
    } else if parts.len() == 3 {
        ask_variant(&parts[0], &parts[1], &parts[2], session)
    } else {
        Err("Invalid path depth")
    }
}

/// Makes the names of segments in a playlist into paths.
pub fn rewrite_playlist_urls(content: &str, stream_key: &str) -> (r: String)
    ensures
        r@ == rewritten(content@, stream_key@),
{
    let old_lines = lines_of(content);
    let ghost all = lines(content@);
    let ghost change = |l: Seq<char>| rewritten_line(l, stream_key@);
    let mut new_lines: Vec<String> = Vec::new();
    let mut i: usize = 0;
    while i < old_lines.len()
        invariant
            0 <= i <= old_lines@.len(),
            texts(old_lines@) == all,
            change == (|l: Seq<char>| rewritten_line(l, stream_key@)),
            texts(new_lines@) == all.take(i as int).map_values(change),
        decreases old_lines@.len() - i,
    {
        let ghost so_far = texts(new_lines@);
        let line = old_lines[i].as_str();
        assert(all[i as int] == line@);
        let new_line = if ends_with(line, ".ts") {
            cat4("/live/", stream_key, "/", line)
        } else {
            line.to_owned()
        };
        new_lines.push(new_line);
        assert(texts(new_lines@) =~= so_far.push(change(all[i as int])));
        assert(all.take(i + 1).map_values(change) =~= so_far.push(change(all[i as int])));
        i = i + 1;
    }
    assert(all.take(i as int) =~= all);
    join_texts(&new_lines, "\n")
}

/// The counts after a request that was answered with some bytes.
pub open spec fn requested(stats: Stats, bytes: nat) -> Stats {
    Stats {
        requests: stats.requests.wrapping_add(1),
        bytes_served: stats.bytes_served.wrapping_add(bytes as u64),
        ..stats
    }
}

/// Counts a request that was answered with some bytes.
pub fn track_request_stats(stats: &mut Stats, bytes_served: usize)
    ensures
        *final(stats) == requested(*old(stats), bytes_served as nat),
{
    stats.requests = stats.requests.wrapping_add(1);
    stats.bytes_served = stats.bytes_served.wrapping_add(bytes_served as u64);
}

/// What a viewer is answered whose stream is not ready: that there is none, where it
/// failed to start, or else to try again later.
pub open spec fn unavailable(failed: bool) -> ReplyView {
    if failed {
        plain(404, "Stream not found"@)
    } else {
        retry_later()
    }
}

/// Lets a request pass whose stream is ready, and answers any other.
pub fn ensure_stream_ready(ready: bool, failed: bool) -> (r: Option<Reply>)
    ensures
        match r {
            Some(reply) => !ready && reply@ == unavailable(failed),
            None => ready,
        },
{
    if ready {
        None
    } else if failed {
        Some(plain_reply(404, "Stream not found"))
    } else {
        Some(retry_later_reply())
    }
}

/// A stream key that stands as one path component: not empty and without `/`.
pub open spec fn is_stream_key(key: Seq<char>) -> bool {
    key.len() > 0 && !key.contains('/')
}

proof fn lemma_two_components(key: Seq<char>, file: Seq<char>)
    requires
        is_stream_key(key),
        is_stream_key(file),
    ensures
        split_nonempty(key + "/"@ + file, '/') == seq![key, file],
{
    reveal_strlit("/");
    assert("/"@ =~= seq!['/']);
    lemma_split_single(key, '/');
    lemma_split_extend(key, file, '/');
    let parts = seq![key].push(file);
    assert(parts =~= seq![key, file]);
    lemma_filter_all(parts, |p: Seq<char>| p.len() > 0);
}

/// A playlist that was rewritten leads back to the stream: what it names a segment is
/// a path below the live root, and a request for that path asks for the very segment.
pub proof fn law_rewritten_segment_is_found(
    stream_key: Seq<char>,
    name: Seq<char>,
    session: Option<Seq<char>>,
)
    requires
        is_stream_key(stream_key),
        has_suffix(name, ".ts"@),
        !name.contains('/'),
    ensures
        has_prefix(rewritten_line(name, stream_key), "/live/"@),
        request_for(rewritten_line(name, stream_key).skip("/live/"@.len() as int), session) == Ok::<
            RequestView,
            Seq<char>,
        >(RequestView::Segment { stream_key, segment_path: name }),
{
    reveal_strlit(".ts");
    reveal_strlit(".m3u8");
    let url = segment_url(stream_key, name);
    assert(url.take("/live/"@.len() as int) =~= "/live/"@);
    assert(url.skip("/live/"@.len() as int) =~= stream_key + "/"@ + name);
    lemma_two_components(stream_key, name);
    assert(!has_suffix(name, ".m3u8"@)) by {
        if has_suffix(name, ".m3u8"@) {
            assert(name.skip(name.len() - 5)[4] == '8');
            assert(name.skip(name.len() - 3)[2] == 's');
        }
    }
}

/// A viewer that follows the playlist of a first request, with the session it was
/// given, gets a playlist and is not sent round again.
pub proof fn law_session_leads_to_playlist(stream_key: Seq<char>, session: Seq<char>)
    requires
        is_stream_key(stream_key),
    ensures
        request_for(stream_key + "/"@ + "index.m3u8"@, Some(session)) == Ok::<RequestView, Seq<char>>(
            RequestView::Playlist {
                stream_key,
                playlist_path: "index.m3u8"@,
                session: Some(session),
                needs_url_rewrite: true,
            },
        ),
        request_for(stream_key + "/"@ + "master.m3u8"@, Some(session)) == Ok::<RequestView, Seq<char>>(
            RequestView::Playlist {
                stream_key,
                playlist_path: "master.m3u8"@,
                session: Some(session),
                needs_url_rewrite: false,
            },
        ),
{
    reveal_strlit("index.m3u8");
    reveal_strlit("master.m3u8");
    reveal_strlit(".m3u8");
    lemma_two_components(stream_key, "index.m3u8"@);
    lemma_two_components(stream_key, "master.m3u8"@);
    assert("index.m3u8"@.skip(5) =~= ".m3u8"@);
    assert("master.m3u8"@.skip(6) =~= ".m3u8"@);
    assert("index.m3u8"@.len() != "master.m3u8"@.len());
}

/// A first request may name the stream in either of two ways.
pub proof fn law_first_request_names_stream(stream_key: Seq<char>)
    requires
        is_stream_key(stream_key),
    ensures
        request_for(stream_key + ".m3u8"@, None) == Ok::<RequestView, Seq<char>>(
            RequestView::InitialRequest { stream_key },
        ),
        request_for(stream_key + "/"@ + "index.m3u8"@, None) == Ok::<RequestView, Seq<char>>(
            RequestView::InitialRequest { stream_key },
        ),
{
    reveal_strlit("index.m3u8");
    reveal_strlit(".m3u8");
    lemma_two_components(stream_key, "index.m3u8"@);
    assert("index.m3u8"@.skip(5) =~= ".m3u8"@);
    let file = stream_key + ".m3u8"@;
    assert forall|i: int| 0 <= i < file.len() implies file[i] != '/' by {
        if i < stream_key.len() {
            assert(stream_key[i] != '/');
        }
    }
    lemma_split_single(file, '/');
    lemma_filter_all(seq![file], |p: Seq<char>| p.len() > 0);
    assert(file.skip(file.len() - 5) =~= ".m3u8"@);
    assert(file.take(file.len() - 5) =~= stream_key);
}

/// Rewriting keeps a playlist line for line: each line that names a segment becomes its
/// path, and every other line stays as it is.
pub proof fn law_rewriting_keeps_lines(content: Seq<char>, stream_key: Seq<char>)
    requires
        !stream_key.contains('\n'),
        lines(content).len() > 0 ==> lines(content).last().len() > 0,
        forall|i: int|
            0 <= i < lines(content).len() - 1 ==> without_cr(#[trigger] lines(content)[i]) == lines(content)[i],
    ensures
        lines(rewritten(content, stream_key)) == lines(content).map_values(
            |l: Seq<char>| rewritten_line(l, stream_key),
        ),
{
    reveal_strlit("\n");
    reveal_strlit("/live/");
    reveal_strlit("/");
    reveal_strlit(".ts");
    assert("\n"@ =~= seq!['\n']);
    let old_lines = lines(content);
    let new_lines = old_lines.map_values(|l: Seq<char>| rewritten_line(l, stream_key));
    lemma_split_pieces(content, '\n');
    let pieces = split(content, '\n');
    if old_lines.len() == 0 {
        assert(new_lines =~= Seq::<Seq<char>>::empty());
        assert(lines(Seq::<char>::empty()) =~= new_lines);
    } else {
        assert forall|i: int| 0 <= i < new_lines.len() implies !(#[trigger] new_lines[i]).contains('\n') by {
            let line = old_lines[i];
            assert forall|j: int| 0 <= j < line.len() implies line[j] != '\n' by {
                assert(pieces[i][j] != '\n');
                assert(line[j] == pieces[i][j]);
            }
            assert forall|j: int| 0 <= j < new_lines[i].len() implies new_lines[i][j] != '\n' by {
                if has_suffix(line, ".ts"@) {
                    if 6 <= j < 6 + stream_key.len() {
                        assert(new_lines[i][j] == stream_key[j - 6]);
                    } else if j > 6 + stream_key.len() {
                        assert(new_lines[i][j] == line[j - 7 - stream_key.len()]);
                    }
                }
            }
        }
        lemma_split_join(new_lines, '\n');
        assert(new_lines.last() == rewritten_line(old_lines.last(), stream_key));
        assert(new_lines.last().len() > 0);
        let kept = new_lines.drop_last().map_values(|p: Seq<char>| without_cr(p));
        assert forall|i: int| 0 <= i < new_lines.len() - 1 implies without_cr(#[trigger] new_lines[i])
            == new_lines[i] by {
            let line = old_lines[i];
            assert(without_cr(line) == line);
            if has_suffix(line, ".ts"@) {
                assert(line.skip(line.len() - 3)[2] == 's');
                assert(new_lines[i].last() == line.last());
            }
        }
        assert(kept =~= new_lines.drop_last());
        assert(kept.push(new_lines.last()) =~= new_lines);
    }
}

/// Rewriting goes line by line: two playlists with a line feed between them are rewritten
/// like each of them alone.
pub proof fn law_rewriting_is_piecewise(a: Seq<char>, b: Seq<char>, stream_key: Seq<char>)
    requires
        a.len() > 0 ==> a.last() != '\n' && a.last() != '\r',
        b.len() > 0,
    ensures
        rewritten(a + "\n"@ + b, stream_key) == rewritten(a, stream_key) + "\n"@ + rewritten(
            b,
            stream_key,
        ),
{
    reveal_strlit("\n");
    reveal_strlit(".ts");
    assert("\n"@ =~= seq!['\n']);
    let change = |l: Seq<char>| rewritten_line(l, stream_key);
    let whole = a + "\n"@ + b;
    lemma_split_pieces(b, '\n');
    lemma_split_pieces(b.drop_last(), '\n');
    assert(lines(b).len() > 0);
    let after = lines(b).map_values(change);
    if a.len() > 0 {
        lemma_lines_concat(a, b);
        let before = lines(a).map_values(change);
        assert(lines(whole).map_values(change) =~= before + after);
        lemma_join_concat(before, after, "\n"@);
    } else {
        lemma_split_concat(a, b, '\n');
        assert(a =~= Seq::<char>::empty());
        let before = seq![Seq::<char>::empty()];
        assert(split(a, '\n') =~= before);
        assert(lines(whole) =~= before + lines(b));
        assert(change(Seq::<char>::empty()) =~= Seq::<char>::empty());
        assert(lines(whole).map_values(change) =~= before + after);
        lemma_join_concat(before, after, "\n"@);
        assert(lines(a) =~= Seq::<Seq<char>>::empty());
        assert(lines(a).map_values(change) =~= Seq::<Seq<char>>::empty());
    }
}

proof fn lemma_lines_have_no_line_feed(content: Seq<char>, i: int)
    requires
        0 <= i < lines(content).len(),
    ensures
        !lines(content)[i].contains('\n'),
{
    lemma_split_pieces(content, '\n');
    let (pieces, line) = (split(content, '\n'), lines(content)[i]);
    assert forall|j: int| 0 <= j < line.len() implies line[j] != '\n' by {
        assert(pieces[i][j] != '\n');
        assert(line[j] == pieces[i][j]);
    }
}

/// In a rewritten playlist every line stands where it stood. A line that does not end in
/// `.ts` is character for character what it was, and one that does stands behind the path of
/// its stream.
pub proof fn law_only_segment_lines_change(content: Seq<char>, stream_key: Seq<char>, i: int)
    requires
        !stream_key.contains('\n'),
        0 <= i < lines(content).len(),
    ensures
        ({
            let (line, new_lines) = (
                lines(content)[i],
                split(rewritten(content, stream_key), '\n'),
            );
            let n = line.len() as int;
            let ends_in_ts = n >= 3 && line[n - 3] == '.' && line[n - 2] == 't' && line[n - 1] == 's';
            &&& new_lines.len() == lines(content).len()
            &&& !ends_in_ts ==> new_lines[i] == line
            &&& ends_in_ts ==> new_lines[i] == "/live/"@ + stream_key + "/"@ + line
        }),
{
    reveal_strlit("\n");
    reveal_strlit("/live/");
    reveal_strlit("/");
    reveal_strlit(".ts");
    assert("\n"@ =~= seq!['\n']);
    let old_lines = lines(content);
    let new_lines = old_lines.map_values(|l: Seq<char>| rewritten_line(l, stream_key));
    assert forall|j: int| 0 <= j < new_lines.len() implies !(#[trigger] new_lines[j]).contains('\n') by {
        lemma_lines_have_no_line_feed(content, j);
        if has_suffix(old_lines[j], ".ts"@) {
            assert(!("/live/"@ + stream_key + "/"@).contains('\n'));
            assert(new_lines[j] == ("/live/"@ + stream_key + "/"@) + old_lines[j]);
        }
    }
    lemma_split_join(new_lines, '\n');
    let line = old_lines[i];
    lemma_endings(line);
    assert(new_lines[i] == rewritten_line(line, stream_key));
}

/// A playlist that names no segment is rewritten to itself, but for a line end behind its
/// last line.
pub proof fn law_playlist_without_segments_stays(content: Seq<char>, stream_key: Seq<char>)
    requires
        !content.contains('\r'),
        content.len() > 0,
        content.last() != '\n',
        forall|i: int|
            0 <= i < split(content, '\n').len() ==> ({
                let line = #[trigger] split(content, '\n')[i];
                line.len() == 0 || line.last() != 's'
            }),
    ensures
        rewritten(content, stream_key) == content,
        rewritten(content + seq!['\n'], stream_key) == content,
{
    reveal_strlit("\n");
    reveal_strlit(".ts");
    assert("\n"@ =~= seq!['\n']);
    let pieces = split(content, '\n');
    lemma_split_pieces(content, '\n');
    lemma_join_split(content, '\n');
    let ended = content + seq!['\n'];
    let nothing = Seq::<char>::empty();
    lemma_split_extend(content, nothing, '\n');
    assert(content + seq!['\n'] + nothing =~= ended);
    assert(split(ended, '\n') == pieces.push(nothing));
    assert forall|i: int| 0 <= i < pieces.len() implies {
        &&& without_cr(#[trigger] pieces[i]) == pieces[i]
        &&& rewritten_line(pieces[i], stream_key) == pieces[i]
    } by {
        let line = pieces[i];
        if line.len() > 0 {
            assert(line.last() != '\r') by {
                lemma_piece_is_part(content, '\n', i, line.len() - 1);
            }
            lemma_endings(line);
        }
    }
    assert(pieces.last().len() > 0) by {
        if pieces.last().len() == 0 && pieces.len() > 1 {
            assert(pieces =~= pieces.drop_last().push(nothing));
            lemma_join_concat(pieces.drop_last(), seq![nothing], seq!['\n']);
            assert(pieces.drop_last() + seq![nothing] =~= pieces);
            assert(join(seq![nothing], seq!['\n']) =~= nothing);
            assert(content.last() == '\n');
        } else if pieces.len() == 1 {
            assert(join(pieces, seq!['\n']) =~= pieces[0]);
        }
    }
    assert(lines(content) =~= pieces);
    assert(pieces.push(nothing).drop_last() =~= pieces);
    assert(lines(ended) =~= pieces);
    assert(pieces.map_values(|l: Seq<char>| rewritten_line(l, stream_key)) =~= pieces);
}

proof fn lemma_piece_is_part(s: Seq<char>, sep: char, i: int, j: int)
    requires
        0 <= i < split(s, sep).len(),
        0 <= j < split(s, sep)[i].len(),
    ensures
        s.contains(split(s, sep)[i][j]),
    decreases s.len(),
{
    if s.len() > 0 {
        let front = s.drop_last();
        let c = split(s, sep)[i][j];
        let pieces = split(front, sep);
        lemma_split_pieces(front, sep);
        if s.last() != sep && i == pieces.len() - 1 && j == pieces[i].len() {
            assert(s[s.len() - 1] == c);
        } else {
            lemma_piece_is_part(front, sep, i, j);
            let k = choose|k: int| 0 <= k < front.len() && front[k] == c;
            assert(s[k] == c);
        }
    }
}

/// What it means, character by character, that a name ends as segments and playlists do.
pub proof fn lemma_endings(s: Seq<char>)
    ensures
        ({
            let n = s.len() as int;
            &&& has_suffix(s, ".ts"@) <==> n >= 3 && s[n - 3] == '.' && s[n - 2] == 't' && s[n - 1] == 's'
            &&& has_suffix(s, ".m3u8"@) <==> n >= 5 && s[n - 5] == '.' && s[n - 4] == 'm' && s[n - 3]
                == '3' && s[n - 2] == 'u' && s[n - 1] == '8'
        }),
{
    reveal_strlit(".ts");
    reveal_strlit(".m3u8");
    let n = s.len() as int;
    let (a, b) = (s.skip(n - 3), s.skip(n - 5));
    if n >= 3 {
        assert(a[0] == s[n - 3] && a[1] == s[n - 2] && a[2] == s[n - 1]);
        if s[n - 3] == '.' && s[n - 2] == 't' && s[n - 1] == 's' {
            assert(a =~= ".ts"@);
        }
    }
    if n >= 5 {
        assert(b[0] == s[n - 5] && b[1] == s[n - 4] && b[2] == s[n - 3] && b[3] == s[n - 2] && b[4]
            == s[n - 1]);
        if s[n - 5] == '.' && s[n - 4] == 'm' && s[n - 3] == '3' && s[n - 2] == 'u' && s[n - 1] == '8' {
            assert(b =~= ".m3u8"@);
        }
    }
}

/// Of the files of a stream, `index.m3u8` and `master.m3u8` are its playlists, and those that
/// end in `.ts` are its segments; any other is refused.
pub proof fn law_files_of_a_stream(key: Seq<char>, file: Seq<char>, session: Option<Seq<char>>)
    requires
        is_stream_key(key),
        is_stream_key(file),
    ensures
        ({
            let r = request_for(key + "/"@ + file, session);
            let n = file.len() as int;
            let ends_in_ts = n >= 3 && file[n - 3] == '.' && file[n - 2] == 't' && file[n - 1] == 's';
            let ends_in_m3u8 = n >= 5 && file[n - 5] == '.' && file[n - 4] == 'm' && file[n - 3] == '3'
                && file[n - 2] == 'u' && file[n - 1] == '8';
            &&& r matches Ok(RequestView::InitialRequest { stream_key }) ==> stream_key == key
            &&& r matches Ok(RequestView::Playlist { stream_key, playlist_path, session: s, .. })
                ==> stream_key == key && playlist_path == file && s == session
            &&& r matches Ok(RequestView::Segment { stream_key, segment_path }) ==> stream_key == key
                && segment_path == file
            &&& (r matches Ok(RequestView::Segment { .. })) <==> ends_in_ts
            &&& (r matches Ok(RequestView::InitialRequest { .. })) <==> file == "index.m3u8"@ && session
                is None
            &&& (r matches Ok(RequestView::Playlist { .. })) <==> file == "master.m3u8"@ || (file
                == "index.m3u8"@ && session is Some)
            &&& r matches Ok(RequestView::Playlist { needs_url_rewrite, .. }) ==> (needs_url_rewrite
                <==> file == "index.m3u8"@)
            &&& r is Err && ends_in_m3u8 ==> r->Err_0 == "Unknown playlist file"@
            &&& r is Err && !ends_in_m3u8 ==> r->Err_0 == "Invalid file type"@
        }),
{
    reveal_strlit("index.m3u8");
    reveal_strlit("master.m3u8");
    lemma_two_components(key, file);
    lemma_endings(file);
    assert("index.m3u8"@.len() != "master.m3u8"@.len());
}

/// Of the files of a rendition, `index.m3u8` is its playlist, and those that end in `.ts` are
/// its segments, both named with the rendition before them; any other is refused.
pub proof fn law_files_of_a_rendition(
    key: Seq<char>,
    variant: Seq<char>,
    file: Seq<char>,
    session: Option<Seq<char>>,
)
    requires
        is_stream_key(key),
        is_stream_key(variant),
        is_stream_key(file),
    ensures
        ({
            let r = request_for(key + "/"@ + variant + "/"@ + file, session);
            let n = file.len() as int;
            let ends_in_ts = n >= 3 && file[n - 3] == '.' && file[n - 2] == 't' && file[n - 1] == 's';
            &&& file == "index.m3u8"@ ==> r == Ok::<RequestView, Seq<char>>(
                RequestView::Playlist {
                    stream_key: key,
                    playlist_path: variant + "/"@ + file,
                    session,
                    needs_url_rewrite: false,
                },
            )
            &&& ends_in_ts ==> r == Ok::<RequestView, Seq<char>>(
                RequestView::Segment { stream_key: key, segment_path: variant + "/"@ + file },
            )
            &&& file != "index.m3u8"@ && !ends_in_ts ==> r == Err::<RequestView, Seq<char>>(
                "Invalid variant file"@,
            )
        }),
{
    reveal_strlit("index.m3u8");
    lemma_three_components(key, variant, file);
    lemma_endings(file);
}

/// A single component asks for the stream that it names before `.m3u8`; without a name, or
/// without that ending, it is refused.
pub proof fn law_short_path_names_its_stream(file: Seq<char>, session: Option<Seq<char>>)
    requires
        is_stream_key(file),
    ensures
        ({
            let r = request_for(file, session);
            let n = file.len() as int;
            let ends_in_m3u8 = n >= 5 && file[n - 5] == '.' && file[n - 4] == 'm' && file[n - 3] == '3'
                && file[n - 2] == 'u' && file[n - 1] == '8';
            &&& ends_in_m3u8 && n > 5 ==> r == Ok::<RequestView, Seq<char>>(
                RequestView::InitialRequest { stream_key: file.take(n - 5) },
            )
            &&& !(ends_in_m3u8 && n > 5) ==> r == Err::<RequestView, Seq<char>>(
                "Invalid path format"@,
            )
        }),
{
    lemma_split_single(file, '/');
    lemma_filter_all(seq![file], |p: Seq<char>| p.len() > 0);
    lemma_endings(file);
}

/// A path of no component, or of more than three, is refused.
pub proof fn law_paths_are_neither_empty_nor_deep(parts: Seq<Seq<char>>, session: Option<Seq<char>>)
    requires
        forall|i: int| 0 <= i < parts.len() ==> is_stream_key(#[trigger] parts[i]),
    ensures
        parts.len() == 0 ==> request_for(join(parts, "/"@), session) == Err::<RequestView, Seq<char>>(
            "Invalid path"@,
        ),
        parts.len() > 3 ==> request_for(join(parts, "/"@), session) == Err::<RequestView, Seq<char>>(
            "Invalid path depth"@,
        ),
{
    reveal_strlit("/");
    reveal_strlit("");
    assert("/"@ =~= seq!['/']);
    if parts.len() == 0 {
        let nothing = Seq::<char>::empty();
        assert(join(parts, "/"@) =~= nothing);
        lemma_split_single(nothing, '/');
        lemma_no_components();
    } else {
        lemma_split_join(parts, '/');
        lemma_filter_all(parts, |p: Seq<char>| p.len() > 0);
    }
}

proof fn lemma_no_components()
    ensures
        seq![Seq::<char>::empty()].filter(|p: Seq<char>| p.len() > 0) == Seq::<Seq<char>>::empty(),
{
    reveal(Seq::filter);
    let test = |p: Seq<char>| p.len() > 0;
    let one = seq![Seq::<char>::empty()];
    assert(one.drop_last() =~= Seq::<Seq<char>>::empty());
    assert(one.drop_last().filter(test) =~= Seq::<Seq<char>>::empty());
}

/// Slashes before, behind and beside another slash count for nothing.
pub proof fn law_extra_slashes_do_not_count(a: Seq<char>, b: Seq<char>, session: Option<Seq<char>>)
    ensures
        request_for("/"@ + a, session) == request_for(a, session),
        request_for(a + "/"@, session) == request_for(a, session),
        request_for(a + "/"@ + "/"@ + b, session) == request_for(a + "/"@ + b, session),
{
    reveal_strlit("/");
    assert("/"@ =~= seq!['/']);
    let nothing = Seq::<char>::empty();
    let test = |p: Seq<char>| p.len() > 0;
    lemma_split_single(nothing, '/');
    lemma_no_components();
    lemma_split_concat(nothing, a, '/');
    assert(nothing + seq!['/'] + a =~= "/"@ + a);
    Seq::filter_distributes_over_add(seq![nothing], split(a, '/'), test);
    assert(Seq::<Seq<char>>::empty() + split(a, '/').filter(test) =~= split(a, '/').filter(test));
    lemma_split_concat(a, nothing, '/');
    assert(a + seq!['/'] + nothing =~= a + "/"@);
    Seq::filter_distributes_over_add(split(a, '/'), seq![nothing], test);
    assert(split(a, '/').filter(test) + Seq::<Seq<char>>::empty() =~= split(a, '/').filter(test));
    lemma_split_concat(a, b, '/');
    Seq::filter_distributes_over_add(split(a, '/'), split(b, '/'), test);
    lemma_split_concat(a + "/"@, b, '/');
    Seq::filter_distributes_over_add(split(a + "/"@, '/'), split(b, '/'), test);
}

/// A request adds one to the requests and its bytes to the bytes served, and nothing else.
pub proof fn law_request_is_counted_once(stats: Stats, bytes: nat)
    requires
        stats.requests < u64::MAX,
        stats.bytes_served + bytes <= u64::MAX,
    ensures
        requested(stats, bytes) == (Stats {
            requests: (stats.requests + 1) as u64,
            bytes_served: (stats.bytes_served + bytes) as u64,
            ..stats
        }),
{
}

/// A viewer whose stream failed is told that there is none; any other is told to come back
/// after five seconds.
pub proof fn law_failed_stream_is_not_found()
    ensures
        unavailable(true).status == 404,
        unavailable(true).body == BodyView::Text("Stream not found"@),
        unavailable(true).headers.len() == 0,
        unavailable(false).status == 503,
        unavailable(false).body == BodyView::Text("Stream not available"@),
        unavailable(false).headers == seq![("retry-after"@, "5"@)],
{
}

} // verus!
