//! What each HTTP request is answered.
use crate::clock::{utc_now, Timestamp};
use crate::launch::stream_dir;
use crate::manager::{ManagerView, StreamManager};
use crate::paths::{join_path, joined, law_names_stand_below_directories};
use crate::text::{cat3, text_of};
use common::{is_stream_key, parse_hls_request, request_for, ContextQuery, HlsRequestType, RequestView};
use reply::{plain, plain_reply, BodyView, Reply};
use vstd::prelude::*;
use vstd::string::*;

pub mod api;
pub mod common;
pub mod playlist;
pub mod reply;
pub mod segment;

pub use api::{dashboard, health_check, status};

verus! {

/// What a request for HLS content needs first.
#[derive(Debug, PartialEq)]
pub enum HlsStep {
    /// Nothing: this is the answer.
    Answer(Reply),
    /// The stream, for a viewer without a session.
    Welcome { stream_key: String },
    /// The stream, for a viewer who asks for a playlist.
    Playlist {
        stream_key: String,
        playlist_path: String,
        session: Option<String>,
        needs_url_rewrite: bool,
    },
    /// A segment, from the cache or from its file.
    Segment { stream_key: String, cache_key: String, file_path: String },
}

/// What a request needs first, and what it changes: a request for a segment counts as
/// one for its stream.
pub open spec fn hls_step(
    before: ManagerView,
    path: Seq<char>,
    session: Option<Seq<char>>,
    now: Timestamp,
    step: HlsStep,
    after: ManagerView,
) -> bool {
    match request_for(path, session) {
        Err(message) => step is Answer && step->0@ == plain(400, message) && after == before,
        Ok(RequestView::InitialRequest { stream_key: key }) => {
            &&& step is Welcome
            &&& step->Welcome_stream_key@ == key
            &&& after == before
        },
        Ok(
            RequestView::Playlist {
                stream_key: key,
                playlist_path: file,
                session: id,
                needs_url_rewrite: rewrite,
            },
        ) => {
            &&& step is Playlist
            &&& step->Playlist_stream_key@ == key
            &&& step->playlist_path@ == file
            &&& text_of(step->session) == id
            &&& step->needs_url_rewrite == rewrite
            &&& after == before
        },
        Ok(RequestView::Segment { stream_key: key, segment_path: file }) => {
            &&& step is Segment
            &&& step->Segment_stream_key@ == key
            &&& step->cache_key@ == key + "/"@ + file
            &&& step->file_path@ == joined(stream_dir(before.settings.launch.hls_path, key), file)
            &&& after == before.accessed(key, now)
        },
    }
}

/// Reads a request for HLS content now.
pub fn serve_hls_content(manager: &mut StreamManager, path: &str, query: ContextQuery) -> (r: HlsStep)
    requires
        old(manager).wf(),
    ensures
        final(manager).wf(),
        exists|now: Timestamp| #[trigger]
            hls_step(old(manager)@, path@, text_of(query.hls_ctx), now, r, final(manager)@),
{
    let now = utc_now();
    serve_hls_content_at(manager, path, query, now)
}

/// Reads a request for HLS content at `now`.
pub fn serve_hls_content_at(
    manager: &mut StreamManager,
    path: &str,
    query: ContextQuery,
    now: Timestamp,
) -> (r: HlsStep)
    requires
        old(manager).wf(),
    ensures
        final(manager).wf(),
        hls_step(old(manager)@, path@, text_of(query.hls_ctx), now, r, final(manager)@),
{
    match parse_hls_request(path, query.hls_ctx) {
        Err(message) => HlsStep::Answer(plain_reply(400, message)),
        Ok(HlsRequestType::InitialRequest { stream_key }) => HlsStep::Welcome { stream_key },
        Ok(
            HlsRequestType::Playlist { stream_key, playlist_path, session, needs_url_rewrite },
        ) => HlsStep::Playlist { stream_key, playlist_path, session, needs_url_rewrite },
        Ok(HlsRequestType::Segment { stream_key, segment_path }) => {
            manager.update_stream_access_at(stream_key.as_str(), now);
            let dir = manager.launcher.stream_dir(stream_key.as_str());
            let file_path = join_path(dir.as_str(), segment_path.as_str());
            let cache_key = cat3(stream_key.as_str(), "/", segment_path.as_str());
            HlsStep::Segment { stream_key, cache_key, file_path }
        },
    }
}

/// A request that is not understood is answered at once, as a bad one, with what is wrong.
/// One for a segment is for the file of that name in the directory of the stream and for the
/// cache entry of that stream and name, and counts as an access at that moment. One for a
/// playlist keeps what was asked for; only a request for a segment changes anything.
pub proof fn law_requests_keep_what_was_asked_for(
    v: ManagerView,
    path: Seq<char>,
    session: Option<Seq<char>>,
    now: Timestamp,
    step: HlsStep,
    after: ManagerView,
)
    requires
        hls_step(v, path, session, now, step, after),
        v.settings.launch.hls_path.len() > 0,
        v.settings.launch.hls_path.last() != '/',
    ensures
        ({
            let asked = request_for(path, session);
            &&& asked matches Err(message) ==> {
                &&& step is Answer
                &&& step->0@.status == 400
                &&& step->0@.body == BodyView::Text(message)
            }
            &&& asked matches Ok(RequestView::InitialRequest { stream_key }) ==> {
                &&& step is Welcome
                &&& step->Welcome_stream_key@ == stream_key
            }
            &&& asked matches Ok(
                RequestView::Playlist {
                    stream_key,
                    playlist_path,
                    session: id,
                    needs_url_rewrite,
                },
            ) ==> {
                &&& step is Playlist
                &&& step->Playlist_stream_key@ == stream_key
                &&& step->playlist_path@ == playlist_path
                &&& text_of(step->session) == id
                &&& step->needs_url_rewrite == needs_url_rewrite
            }
            &&& asked matches Ok(RequestView::Segment { stream_key: key, segment_path: file })
                ==> is_stream_key(key) && file.len() > 0 && file[0] != '/' ==> {
                &&& step is Segment
                &&& step->Segment_stream_key@ == key
                &&& step->cache_key@ == key + "/"@ + file
                &&& step->file_path@ == v.settings.launch.hls_path + seq!['/'] + key + seq!['/'] + file
                &&& v.active.contains_key(key) ==> after.active[key].last_accessed == now
                &&& !v.active.contains_key(key) ==> after == v
            }
            &&& !(asked matches Ok(RequestView::Segment { .. })) ==> after == v
        }),
{
    if let Ok(RequestView::Segment { stream_key: key, segment_path: file }) = request_for(path, session) {
        if is_stream_key(key) && file.len() > 0 && file[0] != '/' {
            let hls = v.settings.launch.hls_path;
            let dir = hls + seq!['/'] + key;
            assert(key[0] != '/');
            assert(key.last() != '/');
            law_names_stand_below_directories(hls, key);
            assert(dir.last() == key.last());
            law_names_stand_below_directories(dir, file);
        }
    }
}

} // verus!
