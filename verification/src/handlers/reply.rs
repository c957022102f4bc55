//! Answers to HTTP requests.
use crate::text::pairs;
use vstd::prelude::*;
use vstd::string::*;

verus! {

broadcast use vstd::string::group_string_axioms;

#[derive(Debug, Clone, PartialEq)]
pub enum ReplyBody {
    Text(String),
    Bytes(Vec<u8>),
}

/// A status code, the header fields in order, and the body.
#[derive(Debug, Clone, PartialEq)]
pub struct Reply {
    pub status: u16,
    pub headers: Vec<(String, String)>,
    pub body: ReplyBody,
}

pub enum BodyView {
    Text(Seq<char>),
    Bytes(Seq<u8>),
}

/// What an answer says.
pub struct ReplyView {
    pub status: u16,
    pub headers: Seq<(Seq<char>, Seq<char>)>,
    pub body: BodyView,
}

impl View for ReplyBody {
    type V = BodyView;

    open spec fn view(&self) -> BodyView {
        match self {
            ReplyBody::Text(s) => BodyView::Text(s@),
            ReplyBody::Bytes(b) => BodyView::Bytes(b@),
        }
    }
}

impl View for Reply {
    type V = ReplyView;

    open spec fn view(&self) -> ReplyView {
        ReplyView { status: self.status, headers: pairs(self.headers@), body: self.body@ }
    }
}

/// A plain answer: a status and a text.
pub open spec fn plain(status: u16, text: Seq<char>) -> ReplyView {
    ReplyView { status, headers: Seq::empty(), body: BodyView::Text(text) }
}

/// The answer where a stream cannot be had yet: the viewer may ask again in a while.
pub open spec fn retry_later() -> ReplyView {
    ReplyView {
        status: 503,
        headers: seq![("retry-after"@, "5"@)],
        body: BodyView::Text("Stream not available"@),
    }
}

/// A playlist, which no one may keep.
pub open spec fn playlist(text: Seq<char>) -> ReplyView {
    ReplyView {
        status: 200,
        headers: seq![
            ("content-type"@, "application/vnd.apple.mpegurl"@),
            ("cache-control"@, "no-cache"@),
        ],
        body: BodyView::Text(text),
    }
}

/// A segment, with its media type and how it may be kept.
pub open spec fn segment(
    content_type: Seq<char>,
    cache_control: Seq<char>,
    data: Seq<u8>,
) -> ReplyView {
    ReplyView {
        status: 200,
        headers: seq![("content-type"@, content_type), ("cache-control"@, cache_control)],
        body: BodyView::Bytes(data),
    }
}

/// A plain answer: a status and a text.
pub fn plain_reply(status: u16, text: &str) -> (r: Reply)
    ensures
        r@ == plain(status, text@),
{
    let r = Reply { status, headers: Vec::new(), body: ReplyBody::Text(text.to_owned()) };
    assert(r@.headers =~= Seq::<(Seq<char>, Seq<char>)>::empty());
    r
}

/// The answer where a stream cannot be had yet.
pub fn retry_later_reply() -> (r: Reply)
    ensures
        r@ == retry_later(),
{
    let mut headers: Vec<(String, String)> = Vec::new();
    headers.push(("retry-after".to_owned(), "5".to_owned()));
    let r = Reply { status: 503, headers, body: ReplyBody::Text("Stream not available".to_owned()) };
    assert(r@.headers =~= retry_later().headers);
    r
}

/// A playlist.
pub fn playlist_reply(text: String) -> (r: Reply)
    ensures
        r@ == playlist(text@),
{
    let mut headers: Vec<(String, String)> = Vec::new();
    headers.push(("content-type".to_owned(), "application/vnd.apple.mpegurl".to_owned()));
    headers.push(("cache-control".to_owned(), "no-cache".to_owned()));
    let r = Reply { status: 200, headers, body: ReplyBody::Text(text) };
    assert(r@.headers =~= playlist(text@).headers);
    r
}

/// A segment.
pub fn segment_reply(content_type: &str, cache_control: &str, data: Vec<u8>) -> (r: Reply)
    ensures
        r@ == segment(content_type@, cache_control@, data@),
{
    let mut headers: Vec<(String, String)> = Vec::new();
    headers.push(("content-type".to_owned(), content_type.to_owned()));
    headers.push(("cache-control".to_owned(), cache_control.to_owned()));
    let r = Reply { status: 200, headers, body: ReplyBody::Bytes(data) };
    assert(r@.headers =~= segment(content_type@, cache_control@, data@).headers);
    r
}

/// A playlist is sent as one, with its text, and must be asked for anew each time; a segment
/// is sent with its own media type, its own bytes and how it may be kept; a viewer who comes
/// too early is told to come back in five seconds; a refusal is its status and its text.
pub proof fn law_replies_carry_what_was_asked_for(
    text: Seq<char>,
    content_type: Seq<char>,
    cache_control: Seq<char>,
    data: Seq<u8>,
    status: u16,
)
    ensures
        playlist(text).status == 200,
        playlist(text).body == BodyView::Text(text),
        playlist(text).headers == seq![
            ("content-type"@, "application/vnd.apple.mpegurl"@),
            ("cache-control"@, "no-cache"@),
        ],
        segment(content_type, cache_control, data).status == 200,
        segment(content_type, cache_control, data).body == BodyView::Bytes(data),
        segment(content_type, cache_control, data).headers == seq![
            ("content-type"@, content_type),
            ("cache-control"@, cache_control),
        ],
        retry_later().status == 503,
        retry_later().body == BodyView::Text("Stream not available"@),
        retry_later().headers == seq![("retry-after"@, "5"@)],
        plain(status, text).status == status,
        plain(status, text).body == BodyView::Text(text),
        plain(status, text).headers.len() == 0,
{
}

} // verus!
