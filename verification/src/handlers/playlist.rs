//! Playlists: the first one, which gives a viewer a session, and those of the streams.
use crate::clock::{seconds_between, utc_now, Timestamp};
use crate::handlers::common::{
    ensure_stream_ready, is_stream_key, law_session_leads_to_playlist, request_for, requested,
    rewrite_playlist_urls, rewritten, track_request_stats, unavailable, RequestView,
};
use crate::handlers::reply::{plain, plain_reply, playlist, playlist_reply, Reply};
use crate::launch::{plan_for, single_output, stream_dir, variant_output, LaunchSettings};
use crate::manager::{is_idle, ManagerView, StreamManager};
use crate::models::Stats;
use crate::paths::{join_path, joined};
use crate::text::{
    cat2, has_prefix, has_suffix, lemma_filter_all, lemma_split_extend, lemma_split_single, split,
    split_nonempty, text_of,
};
use vstd::prelude::*;
use vstd::string::*;
use vstd::utf8::encode_utf8;

verus! {

broadcast use vstd::string::group_string_axioms;

/// Where a viewer with a session goes on: to the playlist that lists the renditions,
/// where there is one, or else to that of the stream.
pub open spec fn redirect_path(key: Seq<char>, session: Seq<char>, has_master: bool) -> Seq<char> {
    "/live/"@ + key + (if has_master {
        "/master.m3u8?hls_ctx="@
    } else {
        "/index.m3u8?hls_ctx="@
    }) + session
}

/// The playlist that sends a viewer on.
pub open spec fn redirect_playlist(key: Seq<char>, session: Seq<char>, has_master: bool) -> Seq<char> {
    "#EXTM3U\n#EXT-X-STREAM-INF:BANDWIDTH=1,AVERAGE-BANDWIDTH=1\n"@ + redirect_path(
        key,
        session,
        has_master,
    )
}

/// After a viewer was given a session on a stream.
pub open spec fn welcomed(v: ManagerView, key: Seq<char>, session: Seq<char>, now: Timestamp) -> ManagerView {
    ManagerView {
        stats: requested(v.stats, 0),
        sessions: v.sessions.opened(session, key, now),
        ..v
    }
}

/// After a viewer asked for a playlist of a stream that is ready.
pub open spec fn watched(
    v: ManagerView,
    key: Seq<char>,
    session: Option<Seq<char>>,
    seen: Timestamp,
    now: Timestamp,
) -> ManagerView {
    ManagerView {
        sessions: match session {
            Some(id) => v.sessions.touched(id, seen),
            None => v.sessions,
        },
        ..v
    }.accessed(key, now)
}

/// What a playlist is served as.
pub open spec fn playlist_body(content: Seq<char>, key: Seq<char>, rewrite: bool) -> Seq<char> {
    if rewrite {
        rewritten(content, key)
    } else {
        content
    }
}

/// The counts after a playlist was served.
pub open spec fn playlist_served(stats: Stats, body: Seq<char>) -> Stats {
    requested(
        Stats { playlists_served: stats.playlists_served.wrapping_add(1), ..stats },
        encode_utf8(body).len(),
    )
}

/// Answers a first request for a stream, with a new session for the viewer.
pub fn handle_initial_request_with_session(
    manager: &mut StreamManager,
    stream_key: &str,
    ready: bool,
    failed: bool,
    master_exists: bool,
) -> (r: Reply)
    requires
        old(manager).wf(),
    ensures
        final(manager).wf(),
        !ready ==> r@ == unavailable(failed) && final(manager)@ == old(manager)@,
        ready ==> exists|session: Seq<char>, now: Timestamp|
            {
                &&& old(manager)@.sessions.offers(session)
                &&& final(manager)@ == #[trigger] welcomed(old(manager)@, stream_key@, session, now)
                &&& r@ == playlist(redirect_playlist(stream_key@, session, master_exists))
            },
{
    match ensure_stream_ready(ready, failed) {
        Some(reply) => reply,
        None => {
            let session_id = manager.session_manager.offer_session_id();
            let now = utc_now();
            welcome_viewer_at(manager, stream_key, session_id.as_str(), master_exists, now)
        },
    }
}

/// Answers a first request for a stream that is ready, with the given session, which no
/// other viewer may have where viewers are tracked.
pub fn welcome_viewer_at(
    manager: &mut StreamManager,
    stream_key: &str,
    session_id: &str,
    master_exists: bool,
    now: Timestamp,
) -> (r: Reply)
    requires
        old(manager).wf(),
        old(manager)@.sessions.tracking ==> old(manager)@.sessions.unused(session_id@),
    ensures
        final(manager).wf(),
        final(manager)@ == welcomed(old(manager)@, stream_key@, session_id@, now),
        r@ == playlist(redirect_playlist(stream_key@, session_id@, master_exists)),
{
    track_request_stats(&mut manager.stats, 0);
    manager.session_manager.open_session(stream_key, session_id, now);
    playlist_reply(redirect_text(stream_key, session_id, master_exists))
}

/// The playlist that sends a viewer on.
pub fn redirect_text(stream_key: &str, session_id: &str, master_exists: bool) -> (r: String)
    ensures
        r@ == redirect_playlist(stream_key@, session_id@, master_exists),
{
    let place = if master_exists {
        "/master.m3u8?hls_ctx="
    } else {
        "/index.m3u8?hls_ctx="
    };
    let mut path: String = "/live/".to_owned();
    path.append(stream_key);
    path.append(place);
    path.append(session_id);
    cat2("#EXTM3U\n#EXT-X-STREAM-INF:BANDWIDTH=1,AVERAGE-BANDWIDTH=1\n", path.as_str())
}

/// Answers a request for a playlist whose stream is not ready; else notes the viewer and
/// gives the file to read.
pub fn open_playlist(
    manager: &mut StreamManager,
    stream_key: &str,
    playlist_path: &str,
    session: &Option<String>,
    ready: bool,
    failed: bool,
) -> (r: Result<String, Reply>)
    requires
        old(manager).wf(),
    ensures
        final(manager).wf(),
        match r {
            Ok(path) => {
                &&& ready
                &&& path@ == joined(
                    stream_dir(old(manager)@.settings.launch.hls_path, stream_key@),
                    playlist_path@,
                )
                &&& exists|now: Timestamp|
                    final(manager)@ == #[trigger] watched(
                        old(manager)@,
                        stream_key@,
                        text_of(*session),
                        now,
                        now,
                    )
            },
            Err(reply) => !ready && reply@ == unavailable(failed) && final(manager)@ == old(manager)@,
        },
{
    let now = utc_now();
    open_playlist_at(manager, stream_key, playlist_path, session, ready, failed, now)
}

/// Answers a request for a playlist at `now` whose stream is not ready; else notes the
/// viewer and gives the file to read.
pub fn open_playlist_at(
    manager: &mut StreamManager,
    stream_key: &str,
    playlist_path: &str,
    session: &Option<String>,
    ready: bool,
    failed: bool,
    now: Timestamp,
) -> (r: Result<String, Reply>)
    requires
        old(manager).wf(),
    ensures
        final(manager).wf(),
        match r {
            Ok(path) => {
                &&& ready
                &&& path@ == joined(
                    stream_dir(old(manager)@.settings.launch.hls_path, stream_key@),
                    playlist_path@,
                )
                &&& final(manager)@ == watched(
                    old(manager)@,
                    stream_key@,
                    text_of(*session),
                    now,
                    now,
                )
            },
            Err(reply) => !ready && reply@ == unavailable(failed) && final(manager)@ == old(manager)@,
        },
{
    if let Some(reply) = ensure_stream_ready(ready, failed) {
        return Err(reply);
    }
    if let Some(id) = session {
        manager.session_manager.update_session_at(id.as_str(), now);
    }
    manager.update_stream_access_at(stream_key, now);
    let dir = manager.launcher.stream_dir(stream_key);
    Ok(join_path(dir.as_str(), playlist_path))
}

/// Serves a playlist, given what was read of it.
pub fn serve_playlist(
    manager: &mut StreamManager,
    stream_key: &str,
    needs_url_rewrite: bool,
    content: Option<String>,
) -> (r: Reply)
    requires
        old(manager).wf(),
    ensures
        final(manager).wf(),
        match content {
            Some(text) => {
                let body = playlist_body(text@, stream_key@, needs_url_rewrite);
                &&& r@ == playlist(body)
                &&& final(manager)@ == (ManagerView {
                    stats: playlist_served(old(manager)@.stats, body),
                    ..old(manager)@
                })
            },
            None => r@ == plain(404, "Playlist not found"@) && final(manager)@ == old(manager)@,
        },
{
    match content {
        Some(content) => {
            let body = if needs_url_rewrite {
                rewrite_playlist_urls(content.as_str(), stream_key)
            } else {
                content
            };
            let size: usize = body.as_str().as_bytes().len();
            manager.stats.playlists_served = manager.stats.playlists_served.wrapping_add(1);
            track_request_stats(&mut manager.stats, size);
            playlist_reply(body)
        },
        None => plain_reply(404, "Playlist not found"),
    }
}

/// A viewer who was welcomed counts for the stream at once, and the session names it.
pub proof fn law_welcomed_viewer_counts(
    v: ManagerView,
    key: Seq<char>,
    session: Seq<char>,
    now: Timestamp,
)
    requires
        v.sessions.consistent(),
        v.sessions.tracking,
        v.sessions.timeout as i64 >= 0,
    ensures
        welcomed(v, key, session, now).sessions.stream_of(session, now) == Some(key),
        welcomed(v, key, session, now).sessions.stream_viewers(key, now) > 0,
{
    let w = v.sessions.opened(session, key, now);
    let live = |id: Seq<char>| w.live(id, now);
    let here = w.listed(key).filter(live);
    assert(here.contains(session));
    assert(w.listed(key).finite());
    w.listed(key).lemma_len_filter(live);
    if here.len() == 0 {
        assert(here =~= Set::<Seq<char>>::empty());
    }
}

/// A viewer who keeps asking for playlists within the timeout keeps the session and the
/// stream.
pub proof fn law_watching_keeps_session_and_stream(
    v: ManagerView,
    key: Seq<char>,
    session: Seq<char>,
    seen: Timestamp,
    now: Timestamp,
)
    requires
        v.sessions.tracking,
        v.sessions.sessions.contains_key(session),
        v.active.contains_key(key),
        seconds_between(now, seen) <= v.sessions.timeout as i64,
        seconds_between(now, seen) <= v.settings.stream_timeout as i64,
    ensures
        watched(v, key, Some(session), seen, seen).sessions.stream_of(session, now) == Some(
            v.sessions.sessions[session].stream_key,
        ),
        !is_idle(
            watched(v, key, Some(session), seen, seen).active[key],
            now,
            v.settings.stream_timeout,
        ),
        seconds_between(now, watched(v, key, Some(session), seen, seen).active[key].last_accessed)
            <= v.settings.stream_timeout as i64,
{
}

/// The playlist that sends a viewer on has three lines, the last of which leads to a
/// playlist of the very stream with the very session: to the one that lists the renditions
/// where there is one, and else to that of the stream.
pub proof fn law_viewer_is_sent_on_with_session(key: Seq<char>, session: Seq<char>, has_master: bool)
    requires
        !key.contains('\n'),
        !session.contains('\n'),
    ensures
        ({
            let file = if has_master {
                "master.m3u8"@
            } else {
                "index.m3u8"@
            };
            split(redirect_playlist(key, session, has_master), '\n') == seq![
                "#EXTM3U"@,
                "#EXT-X-STREAM-INF:BANDWIDTH=1,AVERAGE-BANDWIDTH=1"@,
                "/live/"@ + key + "/"@ + file + "?hls_ctx="@ + session,
            ]
        }),
{
    reveal_strlit("#EXTM3U\n#EXT-X-STREAM-INF:BANDWIDTH=1,AVERAGE-BANDWIDTH=1\n");
    reveal_strlit("#EXTM3U");
    reveal_strlit("#EXT-X-STREAM-INF:BANDWIDTH=1,AVERAGE-BANDWIDTH=1");
    reveal_strlit("/live/");
    reveal_strlit("/");
    reveal_strlit("master.m3u8");
    reveal_strlit("index.m3u8");
    reveal_strlit("?hls_ctx=");
    reveal_strlit("/master.m3u8?hls_ctx=");
    reveal_strlit("/index.m3u8?hls_ctx=");
    let (a, b) = ("#EXTM3U"@, "#EXT-X-STREAM-INF:BANDWIDTH=1,AVERAGE-BANDWIDTH=1"@);
    let file = if has_master {
        "master.m3u8"@
    } else {
        "index.m3u8"@
    };
    let c = redirect_path(key, session, has_master);
    assert("/master.m3u8?hls_ctx="@ =~= "/"@ + "master.m3u8"@ + "?hls_ctx="@);
    assert("/index.m3u8?hls_ctx="@ =~= "/"@ + "index.m3u8"@ + "?hls_ctx="@);
    assert(c =~= "/live/"@ + key + "/"@ + file + "?hls_ctx="@ + session);
    assert(!c.contains('\n'));
    assert(redirect_playlist(key, session, has_master) =~= a + seq!['\n'] + b + seq!['\n'] + c);
    lemma_split_single(a, '\n');
    lemma_split_extend(a, b, '\n');
    lemma_split_extend(a + seq!['\n'] + b, c, '\n');
    assert(seq![a].push(b).push(c) =~= seq![a, b, c]);
}

/// A playlist that was served is one playlist, one request and as many bytes as its text
/// has; a viewer who was welcomed is one request; nothing else is counted, and no stream is
/// touched.
pub proof fn law_playlists_are_counted(
    v: ManagerView,
    key: Seq<char>,
    session: Seq<char>,
    now: Timestamp,
    content: Seq<char>,
    rewrite: bool,
)
    requires
        v.stats.requests < u64::MAX,
        v.stats.playlists_served < u64::MAX,
        v.stats.bytes_served + encode_utf8(playlist_body(content, key, rewrite)).len() <= u64::MAX,
    ensures
        ({
            let body = playlist_body(content, key, rewrite);
            let after = playlist_served(v.stats, body);
            &&& !rewrite ==> body == content
            &&& rewrite ==> body == rewritten(content, key)
            &&& after.playlists_served == v.stats.playlists_served + 1
            &&& after.requests == v.stats.requests + 1
            &&& after.bytes_served == v.stats.bytes_served + encode_utf8(body).len()
            &&& after.segments_served == v.stats.segments_served
            &&& after.started == v.stats.started && after.stopped == v.stats.stopped
            &&& after.failed == v.stats.failed
            &&& after.total_viewers == v.stats.total_viewers
        }),
        ({
            let after = welcomed(v, key, session, now);
            &&& after.stats.requests == v.stats.requests + 1
            &&& after.stats.bytes_served == v.stats.bytes_served
            &&& after.stats.playlists_served == v.stats.playlists_served
            &&& after.stats.segments_served == v.stats.segments_served
            &&& after.active == v.active && after.pending == v.pending
        }),
{
}

/// A viewer who asks for a playlist renews the session that the request names and the
/// stream that it asks for, at that moment, and no other; a request without session renews
/// none.
pub proof fn law_watching_renews_what_it_names(
    v: ManagerView,
    key: Seq<char>,
    other: Seq<char>,
    session: Seq<char>,
    another: Seq<char>,
    now: Timestamp,
)
    requires
        v.sessions.tracking,
        v.sessions.sessions.contains_key(session),
        v.active.contains_key(key),
        other != key,
        another != session,
    ensures
        ({
            let w = watched(v, key, Some(session), now, now);
            &&& w.sessions.sessions[session].last_seen == now
            &&& w.sessions.sessions[session].stream_key == v.sessions.sessions[session].stream_key
            &&& v.sessions.sessions.contains_key(another) ==> w.sessions.sessions[another]
                == v.sessions.sessions[another]
            &&& w.active[key].last_accessed == now
            &&& v.active.contains_key(other) ==> w.active[other] == v.active[other]
            &&& watched(v, key, None, now, now).sessions == v.sessions
            &&& watched(v, key, None, now, now).active[key].last_accessed == now
        }),
{
}

pub proof fn lemma_three_components(a: Seq<char>, b: Seq<char>, c: Seq<char>)
    requires
        is_stream_key(a),
        is_stream_key(b),
        is_stream_key(c),
    ensures
        split_nonempty(a + "/"@ + b + "/"@ + c, '/') == seq![a, b, c],
{
    reveal_strlit("/");
    assert("/"@ =~= seq!['/']);
    lemma_split_single(a, '/');
    lemma_split_extend(a, b, '/');
    lemma_split_extend(a + seq!['/'] + b, c, '/');
    let parts = seq![a].push(b).push(c);
    assert(parts =~= seq![a, b, c]);
    lemma_filter_all(parts, |p: Seq<char>| p.len() > 0);
}

proof fn lemma_joined_in_steps(dir: Seq<char>, a: Seq<char>, b: Seq<char>)
    requires
        is_stream_key(a),
        is_stream_key(b),
    ensures
        joined(dir, a + "/"@ + b) == joined(joined(dir, a), b),
{
    reveal_strlit("/");
    assert(a[0] != '/' && b[0] != '/' && a.last() != '/');
    assert(!has_prefix(a, "/"@)) by {
        if has_prefix(a, "/"@) {
            assert(a.take(1)[0] == '/');
        }
    }
    assert(!has_prefix(b, "/"@)) by {
        if has_prefix(b, "/"@) {
            assert(b.take(1)[0] == '/');
        }
    }
    let both = a + "/"@ + b;
    assert(!has_prefix(both, "/"@)) by {
        if has_prefix(both, "/"@) {
            assert(both.take(1)[0] == a[0]);
        }
    }
    let one = joined(dir, a);
    assert(one.last() == a.last());
    assert(!has_suffix(one, "/"@)) by {
        if has_suffix(one, "/"@) {
            assert(one.skip(one.len() - 1)[0] == '/');
        }
    }
    assert(joined(dir, both) =~= joined(one, b));
}

/// Viewers read what the encoder writes: the playlist of a rendition, asked for where the
/// playlist of the renditions says it is, is read from the file that the plan of the
/// stream names for it.
pub proof fn law_rendition_is_read_where_written(
    s: LaunchSettings,
    key: Seq<char>,
    maxrates: Seq<u32>,
    i: int,
    session: Option<Seq<char>>,
)
    requires
        s.adaptive,
        0 <= i < s.ladder.len(),
        is_stream_key(key),
        is_stream_key(s.ladder[i].name),
    ensures
        ({
            let file = s.ladder[i].name + "/"@ + "index.m3u8"@;
            &&& request_for(key + "/"@ + file, session) == Ok::<RequestView, Seq<char>>(
                RequestView::Playlist {
                    stream_key: key,
                    playlist_path: file,
                    session,
                    needs_url_rewrite: false,
                },
            )
            &&& joined(stream_dir(s.hls_path, key), file) == plan_for(s, key, maxrates).outputs[i].path
        }),
{
    let name = s.ladder[i].name;
    reveal_strlit("index.m3u8");
    assert(!"index.m3u8"@.contains('/'));
    lemma_three_components(key, name, "index.m3u8"@);
    assert(key + "/"@ + (name + "/"@ + "index.m3u8"@) =~= key + "/"@ + name + "/"@ + "index.m3u8"@);
    lemma_joined_in_steps(stream_dir(s.hls_path, key), name, "index.m3u8"@);
    assert(plan_for(s, key, maxrates).outputs[i] == variant_output(
        s,
        key,
        s.ladder[i],
        i as nat,
        maxrates[i],
    ));
}

/// The same of a stream that is passed on as it comes.
pub proof fn law_stream_is_read_where_written(
    s: LaunchSettings,
    key: Seq<char>,
    maxrates: Seq<u32>,
    session: Seq<char>,
)
    requires
        !s.adaptive,
        is_stream_key(key),
    ensures
        request_for(key + "/"@ + "index.m3u8"@, Some(session)) == Ok::<RequestView, Seq<char>>(
            RequestView::Playlist {
                stream_key: key,
                playlist_path: "index.m3u8"@,
                session: Some(session),
                needs_url_rewrite: true,
            },
        ),
        joined(stream_dir(s.hls_path, key), "index.m3u8"@) == plan_for(s, key, maxrates).outputs[0].path,
{
    law_session_leads_to_playlist(key, session);
    assert(plan_for(s, key, maxrates).outputs[0] == single_output(s, key));
}

} // verus!
