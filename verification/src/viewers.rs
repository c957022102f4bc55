//! Viewers told apart by a digest of their address and user agent.
use crate::clock::{elapsed_seconds, seconds_between, utc_now, Timestamp};
use crate::registry::{lemma_count, Registry};
use crate::sessions::is_fresh;
use crate::vars::{number_or, number_setting, setting, truth_or, truth_setting};
use sha2::{Digest, Sha256};
use vstd::arithmetic::div_mod::{lemma_add_mod_noop, lemma_mod_add_multiples_vanish, lemma_small_mod};
use vstd::prelude::*;
use vstd::string::*;
use vstd::utf8::{
    decode_utf8, encode_utf8, encode_utf8_decode_utf8, encode_utf8_valid_utf8,
    length_of_first_scalar, pop_first_scalar, valid_utf8,
};

verus! {

broadcast use vstd::string::group_string_axioms;

#[derive(Debug, Clone, PartialEq)]
pub struct ViewerInfo {
    pub viewer_hash: String,
    pub first_seen: Timestamp,
    pub last_seen: Timestamp,
    pub request_count: u64,
}

/// What is known of a viewer.
pub struct ViewerView {
    pub viewer_hash: Seq<char>,
    pub first_seen: Timestamp,
    pub last_seen: Timestamp,
    pub request_count: u64,
}

impl View for ViewerInfo {
    type V = ViewerView;

    open spec fn view(&self) -> ViewerView {
        ViewerView {
            viewer_hash: self.viewer_hash@,
            first_seen: self.first_seen,
            last_seen: self.last_seen,
            request_count: self.request_count,
        }
    }
}

/// For each stream its viewers under their digests.
#[verifier::ext_equal]
pub struct ViewersView {
    pub streams: Map<Seq<char>, Map<Seq<char>, ViewerView>>,
    pub timeout: u64,
    pub tracking: bool,
}

/// The SHA-256 digest of some bytes.
pub uninterp spec fn sha256(data: Seq<u8>) -> Seq<u8>;

/// `Digest::digest` of the `sha2` crate, for SHA-256, gives the digest of the bytes,
/// which is 32 bytes long.
#[verifier::external_body]
fn sha256_digest(data: &[u8]) -> (r: Vec<u8>)
    ensures
        r@ == sha256(data@),
        r@.len() == 32,
{
    Sha256::digest(data).to_vec()
}

/// The lower-case character for a hexadecimal digit.
pub open spec fn hex_char(d: int) -> char {
    "0123456789abcdef"@[d]
}

/// Bytes in lower-case hexadecimal notation, two digits each.
pub open spec fn lower_hex(data: Seq<u8>) -> Seq<char>
    decreases data.len(),
{
    if data.len() == 0 {
        Seq::empty()
    } else {
        lower_hex(data.drop_last()).push(hex_char(data.last() as int / 16)).push(
            hex_char(data.last() as int % 16),
        )
    }
}

/// The byte that sets the user agent apart from the address. No text in UTF-8 holds it.
pub const SEPARATOR: u8 = 255;

/// The bytes that stand for a viewer: those of the address, and behind a separator those
/// of the user agent, where there is one.
pub open spec fn viewer_bytes(ip: Seq<char>, user_agent: Option<Seq<char>>) -> Seq<u8> {
    match user_agent {
        Some(ua) => encode_utf8(ip).push(SEPARATOR) + encode_utf8(ua),
        None => encode_utf8(ip),
    }
}

/// What tells a viewer from others: the digest of the bytes that stand for the viewer.
pub open spec fn viewer_hash(ip: Seq<char>, user_agent: Option<Seq<char>>) -> Seq<char> {
    lower_hex(sha256(viewer_bytes(ip, user_agent)))
}

/// The characters of hexadecimal notation, each of them for another digit.
proof fn lemma_hex_chars(a: int, b: int)
    requires
        0 <= a < 16,
        0 <= b < 16,
    ensures
        "0123456789abcdef"@.contains(hex_char(a)),
        hex_char(a) == hex_char(b) ==> a == b,
{
    reveal_strlit("0123456789abcdef");
    assert("0123456789abcdef"@[a] == hex_char(a));
}

/// Two digits stand for each byte.
proof fn lemma_hex_digits(data: Seq<u8>)
    ensures
        lower_hex(data).len() == 2 * data.len(),
        forall|i: int|
            0 <= i < lower_hex(data).len() ==> "0123456789abcdef"@.contains(
                #[trigger] lower_hex(data)[i],
            ),
    decreases data.len(),
{
    if data.len() > 0 {
        lemma_hex_digits(data.drop_last());
        lemma_hex_chars(data.last() as int / 16, data.last() as int % 16);
        lemma_hex_chars(data.last() as int % 16, data.last() as int / 16);
    }
}

/// Different bytes have different notations.
proof fn lemma_hex_is_unique(a: Seq<u8>, b: Seq<u8>)
    requires
        lower_hex(a) == lower_hex(b),
    ensures
        a == b,
    decreases a.len(),
{
    lemma_hex_digits(a);
    lemma_hex_digits(b);
    if a.len() > 0 {
        let (s, t) = (lower_hex(a), lower_hex(b));
        let n = s.len() as int;
        assert(s[n - 1] == t[n - 1] && s[n - 2] == t[n - 2]);
        lemma_hex_chars(a.last() as int / 16, b.last() as int / 16);
        lemma_hex_chars(a.last() as int % 16, b.last() as int % 16);
        assert(lower_hex(a.drop_last()) =~= s.take(n - 2));
        assert(lower_hex(b.drop_last()) =~= t.take(n - 2));
        lemma_hex_is_unique(a.drop_last(), b.drop_last());
        assert(a =~= a.drop_last().push(a.last()));
        assert(b =~= b.drop_last().push(b.last()));
    } else {
        assert(a =~= b);
    }
}

/// The separator occurs in no text.
proof fn lemma_no_separator(bytes: Seq<u8>)
    requires
        valid_utf8(bytes),
    ensures
        !bytes.contains(SEPARATOR),
    decreases bytes.len(),
{
    if bytes.contains(SEPARATOR) {
        let i = bytes.index_of(SEPARATOR);
        let rest = pop_first_scalar(bytes);
        let n = length_of_first_scalar(bytes);
        assert(i >= n);
        assert(rest[i - n] == SEPARATOR);
        lemma_no_separator(rest);
    }
}

/// Bytes in lower-case hexadecimal notation.
pub fn lower_hex_text(data: &Vec<u8>) -> (r: String)
    ensures
        r@ == lower_hex(data@),
{
    let digits = crate::text::chars_of("0123456789abcdef");
    proof {
        reveal_strlit("0123456789abcdef");
    }
    let mut r: String = String::new();
    let mut i: usize = 0;
    assert(data@.take(0) =~= Seq::<u8>::empty());
    while i < data.len()
        invariant
            digits@ == "0123456789abcdef"@,
            digits@.len() == 16,
            0 <= i <= data@.len(),
            r@ == lower_hex(data@.take(i as int)),
        decreases data@.len() - i,
    {
        let b: u8 = data[i];
        r.push(digits[(b / 16) as usize]);
        r.push(digits[(b % 16) as usize]);
        assert(data@.take(i + 1).drop_last() =~= data@.take(i as int));
        i = i + 1;
    }
    assert(data@.take(i as int) =~= data@);
    r
}

/// A number as a counter of the machine's word size shows it: counters wrap around.
pub open spec fn as_count(n: nat) -> usize {
    (n % ((usize::MAX + 1) as nat)) as usize
}

proof fn lemma_counts_add(n: nat, count: usize)
    ensures
        as_count(n).wrapping_add(count) == as_count(n + count as nat),
{
    let m = usize::MAX + 1;
    lemma_add_mod_noop(n as int, count as int, m);
    lemma_small_mod(count as nat, m as nat);
    let a = n as int % m;
    if a + count < m {
        lemma_small_mod((a + count) as nat, m as nat);
    } else {
        lemma_mod_add_multiples_vanish(a + count - m, m);
        lemma_small_mod((a + count - m) as nat, m as nat);
    }
}

/// The digests of some viewers.
pub open spec fn hashes(rows: Seq<ViewerInfo>) -> Seq<Seq<char>> {
    rows.map_values(|r: ViewerInfo| r.viewer_hash@)
}

impl ViewersView {
    /// `rows` holds the viewers of a stream that count at `now`, each once.
    pub open spec fn lists_viewers(
        self,
        rows: Seq<ViewerInfo>,
        stream: Seq<char>,
        now: Timestamp,
    ) -> bool {
        if self.tracking {
            &&& hashes(rows).no_duplicates()
            &&& hashes(rows).to_set() == self.live_viewers(stream, now)
            &&& forall|j: int|
                0 <= j < rows.len() ==> (#[trigger] rows[j])@ == self.viewers_of(
                    stream,
                )[rows[j].viewer_hash@]
        } else {
            rows.len() == 0
        }
    }

    /// Every viewer stands under the own digest.
    pub open spec fn consistent(self) -> bool {
        &&& self.streams.dom().finite()
        &&& forall|k: Seq<char>| #[trigger]
            self.streams.contains_key(k) ==> self.streams[k].dom().finite()
        &&& forall|k: Seq<char>, h: Seq<char>|
            self.streams.contains_key(k) && #[trigger] self.streams[k].contains_key(h)
                ==> self.streams[k][h].viewer_hash == h
    }

    /// The viewers of a stream.
    pub open spec fn viewers_of(self, stream: Seq<char>) -> Map<Seq<char>, ViewerView> {
        if self.streams.contains_key(stream) {
            self.streams[stream]
        } else {
            Map::empty()
        }
    }

    /// A viewer of a stream counts at `now`.
    pub open spec fn live(self, stream: Seq<char>, hash: Seq<char>, now: Timestamp) -> bool {
        &&& self.viewers_of(stream).contains_key(hash)
        &&& is_fresh(self.viewers_of(stream)[hash].last_seen, now, self.timeout)
    }

    /// The viewers of a stream that count at `now`.
    pub open spec fn live_viewers(self, stream: Seq<char>, now: Timestamp) -> Set<Seq<char>> {
        self.viewers_of(stream).dom().filter(|h: Seq<char>| self.live(stream, h, now))
    }

    /// How many viewers of a stream count at `now`.
    pub open spec fn viewer_count(self, stream: Seq<char>, now: Timestamp) -> nat {
        if self.tracking {
            self.live_viewers(stream, now).len()
        } else {
            0
        }
    }

    /// The viewers of the given streams that count at `now`, one for each stream they
    /// watch.
    pub open spec fn live_pairs(self, streams: Set<Seq<char>>, now: Timestamp) -> Set<
        (Seq<char>, Seq<char>),
    > {
        Set::new(|p: (Seq<char>, Seq<char>)| streams.contains(p.0) && self.live(p.0, p.1, now))
    }

    /// How many viewers count at `now`, over all streams.
    pub open spec fn total_viewers(self, now: Timestamp) -> nat {
        if self.tracking {
            self.live_pairs(self.streams.dom(), now).len()
        } else {
            0
        }
    }

    /// After a request of a viewer for a stream.
    pub open spec fn noted(self, stream: Seq<char>, hash: Seq<char>, now: Timestamp) -> ViewersView {
        if self.tracking {
            let known = self.viewers_of(stream);
            let viewer = if known.contains_key(hash) {
                ViewerView {
                    last_seen: now,
                    request_count: known[hash].request_count.wrapping_add(1),
                    ..known[hash]
                }
            } else {
                ViewerView { viewer_hash: hash, first_seen: now, last_seen: now, request_count: 1 }
            };
            ViewersView { streams: self.streams.insert(stream, known.insert(hash, viewer)), ..self }
        } else {
            self
        }
    }

    /// After the viewers that do not count at `now` were forgotten.
    pub open spec fn swept(self, now: Timestamp) -> ViewersView {
        if self.tracking {
            ViewersView {
                streams: Map::new(
                    |k: Seq<char>| self.streams.contains_key(k),
                    |k: Seq<char>| self.streams[k].restrict(self.live_viewers(k, now)),
                ),
                ..self
            }
        } else {
            self
        }
    }

    /// After a stream was forgotten with its viewers.
    pub open spec fn cleared(self, stream: Seq<char>) -> ViewersView {
        if self.tracking {
            ViewersView { streams: self.streams.remove(stream), ..self }
        } else {
            self
        }
    }
}

pub struct ViewerTracker {
    // stream key -> viewer digest -> viewer
    viewers: Registry<Registry<ViewerInfo>>,
    viewer_timeout: u64,
    tracking_enabled: bool,
}

impl ViewerInfo {
    /// An equal record.
    pub fn duplicate(&self) -> (r: Self)
        ensures
            r == *self,
    {
        ViewerInfo {
            viewer_hash: self.viewer_hash.clone(),
            first_seen: self.first_seen,
            last_seen: self.last_seen,
            request_count: self.request_count,
        }
    }
}

impl ViewerTracker {
    pub closed spec fn view(&self) -> ViewersView {
        ViewersView {
            streams: self.viewers@.map_values(
                |r: Registry<ViewerInfo>| r@.map_values(|v: ViewerInfo| v@),
            ),
            timeout: self.viewer_timeout,
            tracking: self.tracking_enabled,
        }
    }

    pub closed spec fn wf(&self) -> bool {
        &&& self.viewers.wf()
        &&& forall|k: Seq<char>| #[trigger] self.viewers@.contains_key(k) ==> self.viewers@[k].wf()
        &&& self@.consistent()
    }

    /// No viewers. The variables set the timeout in seconds, which is 30 where none is
    /// set, and whether viewers are tracked, which they are unless it says otherwise.
    pub fn new(timeout_seconds: Option<&str>, tracking_enabled: Option<&str>) -> (r: Self)
        ensures
            r.wf(),
            r@.streams == Map::<Seq<char>, Map<Seq<char>, ViewerView>>::empty(),
            r@.timeout == number_setting(setting(timeout_seconds), u64::MAX as nat, 30),
            r@.tracking == truth_setting(setting(tracking_enabled), true),
    {
        let r = ViewerTracker {
            viewers: Registry::new(),
            viewer_timeout: number_or(timeout_seconds, u64::MAX, 30),
            tracking_enabled: truth_or(tracking_enabled, true),
        };
        assert(r@.streams =~= Map::<Seq<char>, Map<Seq<char>, ViewerView>>::empty());
        r
    }

    /// What tells a viewer from others.
    pub fn generate_viewer_hash(ip: &str, user_agent: Option<&str>) -> (r: String)
        ensures
            r@ == viewer_hash(ip@, setting(user_agent)),
            r@.len() == 64,
            forall|i: int| 0 <= i < 64 ==> "0123456789abcdef"@.contains(#[trigger] r@[i]),
    {
        let mut data: Vec<u8> = ip.as_bytes_vec();
        if let Some(ua) = user_agent {
            let mut agent: Vec<u8> = ua.as_bytes_vec();
            data.push(SEPARATOR);
            data.append(&mut agent);
        }
        let digest = sha256_digest(data.as_slice());
        proof {
            lemma_hex_digits(digest@);
        }
        lower_hex_text(&digest)
    }

    /// Notes a request of a viewer for a stream, now.
    pub fn track_viewer(&mut self, stream_key: &str, ip: &str, user_agent: Option<&str>)
        requires
            old(self).wf(),
        ensures
            final(self).wf(),
            exists|now: Timestamp|
                final(self)@ == #[trigger] old(self)@.noted(
                    stream_key@,
                    viewer_hash(ip@, setting(user_agent)),
                    now,
                ),
    {
        let hash = Self::generate_viewer_hash(ip, user_agent);
        let now = utc_now();
        self.track_viewer_at(stream_key, hash.as_str(), now);
    }

    /// Notes a request of the viewer with the given digest for a stream.
    pub fn track_viewer_at(&mut self, stream_key: &str, viewer_hash: &str, now: Timestamp)
        requires
            old(self).wf(),
        ensures
            final(self).wf(),
            final(self)@ == old(self)@.noted(stream_key@, viewer_hash@, now),
    {
        if !self.tracking_enabled {
            return;
        }
        let ghost v = self@;
        let ghost w = v.noted(stream_key@, viewer_hash@, now);
        if !self.viewers.contains_key(stream_key) {
            self.viewers.insert(stream_key.to_owned(), Registry::new());
        }
        let ghost known = self.viewers@[stream_key@]@;
        assert(known.map_values(|v: ViewerInfo| v@) =~= v.viewers_of(stream_key@));
        match self.viewers.get_mut(stream_key) {
            Some(stream_viewers) => {
                if stream_viewers.contains_key(viewer_hash) {
                    match stream_viewers.get_mut(viewer_hash) {
                        Some(viewer) => {
                            viewer.last_seen = now;
                            viewer.request_count = viewer.request_count.wrapping_add(1);
                        },
                        None => {},
                    }
                } else {
                    stream_viewers.insert(
                        viewer_hash.to_owned(),
                        ViewerInfo {
                            viewer_hash: viewer_hash.to_owned(),
                            first_seen: now,
                            last_seen: now,
                            request_count: 1,
                        },
                    );
                }
            },
            None => {},
        }
        proof {
            assert(self@.streams[stream_key@] =~= w.streams[stream_key@]);
            assert(self@.streams =~= w.streams);
            assert(self@ == w);
            assert(w.streams[stream_key@].dom() =~= v.viewers_of(stream_key@).dom().insert(viewer_hash@));
        }
    }

    /// Whether a viewer last seen at `last_seen` counts at `now`.
    fn fresh(&self, last_seen: Timestamp, now: Timestamp) -> (r: bool)
        ensures
            r == is_fresh(last_seen, now, self@.timeout),
    {
        elapsed_seconds(now, last_seen) <= self.viewer_timeout as i64
    }

    /// How many of some viewers count at `now`.
    fn count_live(&self, viewers: &Registry<ViewerInfo>, now: Timestamp) -> (r: usize)
        requires
            viewers.wf(),
        ensures
            r == viewers@.dom().filter(
                |h: Seq<char>| is_fresh(viewers@[h].last_seen, now, self@.timeout),
            ).len(),
    {
        let ghost test = |h: Seq<char>| is_fresh(viewers@[h].last_seen, now, self@.timeout);
        let ghost order = viewers.order();
        proof {
            viewers.lemma_order();
            lemma_count(order, test);
            reveal(Seq::filter);
            assert(order.take(0) =~= Seq::<Seq<char>>::empty());
        }
        let mut count: usize = 0;
        let mut i: usize = 0;
        while i < viewers.len()
            invariant
                viewers.wf(),
                test == (|h: Seq<char>| is_fresh(viewers@[h].last_seen, now, self@.timeout)),
                order == viewers.order(),
                0 <= i <= order.len(),
                count <= i,
                count == order.take(i as int).filter(test).len(),
            decreases order.len() - i,
        {
            proof {
                viewers.lemma_order();
                reveal(Seq::filter);
                assert(order.take(i + 1).drop_last() =~= order.take(i as int));
                assert(viewers@.contains_key(order[i as int]));
            }
            let counts = self.fresh(viewers.value_at(i).last_seen, now);
            assert(counts == test(order[i as int]));
            if counts {
                count = count + 1;
            }
            i = i + 1;
        }
        assert(order.take(i as int) =~= order);
        count
    }

    /// The viewers of a stream that count are those of its registry that are fresh.
    proof fn lemma_live_viewers(&self, stream: Seq<char>, now: Timestamp)
        requires
            self.wf(),
            self.viewers@.contains_key(stream),
        ensures
            self@.live_viewers(stream, now) == self.viewers@[stream]@.dom().filter(
                |h: Seq<char>|
                    is_fresh(self.viewers@[stream]@[h].last_seen, now, self@.timeout),
            ),
            self@.live_viewers(stream, now).finite(),
    {
        assert(self@.live_viewers(stream, now) =~= self.viewers@[stream]@.dom().filter(
            |h: Seq<char>| is_fresh(self.viewers@[stream]@[h].last_seen, now, self@.timeout),
        ));
        self@.viewers_of(stream).dom().lemma_len_filter(
            |h: Seq<char>| self@.live(stream, h, now),
        );
    }

    /// How many viewers a stream has now.
    pub fn get_viewer_count(&self, stream_key: &str) -> (r: usize)
        requires
            self.wf(),
        ensures
            exists|now: Timestamp| r == #[trigger] self@.viewer_count(stream_key@, now),
    {
        let now = utc_now();
        self.viewer_count_at(stream_key, now)
    }

    /// How many viewers a stream has at `now`.
    pub fn viewer_count_at(&self, stream_key: &str, now: Timestamp) -> (r: usize)
        requires
            self.wf(),
        ensures
            r == self@.viewer_count(stream_key@, now),
    {
        if !self.tracking_enabled {
            return 0;
        }
        match self.viewers.get(stream_key) {
            Some(viewers) => {
                proof {
                    self.lemma_live_viewers(stream_key@, now);
                }
                self.count_live(viewers, now)
            },
            None => {
                assert(self@.live_viewers(stream_key@, now) =~= Set::<Seq<char>>::empty());
                0
            },
        }
    }

    /// How many viewers there are now, over all streams.
    pub fn get_total_viewer_count(&self) -> (r: usize)
        requires
            self.wf(),
        ensures
            exists|now: Timestamp| r == as_count(#[trigger] self@.total_viewers(now)),
    {
        let now = utc_now();
        self.total_viewer_count_at(now)
    }

    /// How many viewers there are at `now`, over all streams.
    pub fn total_viewer_count_at(&self, now: Timestamp) -> (r: usize)
        requires
            self.wf(),
        ensures
            r == as_count(self@.total_viewers(now)),
    {
        if !self.tracking_enabled {
            proof {
                lemma_small_mod(0, (usize::MAX + 1) as nat);
            }
            return 0;
        }
        let ghost order = self.viewers.order();
        let ghost v = self@;
        proof {
            self.viewers.lemma_order();
            assert(v.live_pairs(order.take(0).to_set(), now) =~= Set::<(Seq<char>, Seq<char>)>::empty());
            lemma_small_mod(0, (usize::MAX + 1) as nat);
        }
        let mut total: usize = 0;
        let mut i: usize = 0;
        while i < self.viewers.len()
            invariant
                self.wf(),
                v == self@,
                order == self.viewers.order(),
                order.no_duplicates(),
                0 <= i <= order.len(),
                v.live_pairs(order.take(i as int).to_set(), now).finite(),
                total == as_count(v.live_pairs(order.take(i as int).to_set(), now).len()),
            decreases order.len() - i,
        {
            proof {
                self.viewers.lemma_order();
                assert(self.viewers@.contains_key(order[i as int]));
            }
            let count = self.count_live(self.viewers.value_at(i), now);
            proof {
                self.lemma_live_viewers(order[i as int], now);
                lemma_pairs_of_next_stream(v, order, i as int, now);
                lemma_counts_add(
                    v.live_pairs(order.take(i as int).to_set(), now).len(),
                    count,
                );
            }
            total = total.wrapping_add(count);
            i = i + 1;
        }
        assert(order.take(i as int) =~= order);
        assert(order.to_set() =~= v.streams.dom());
        total
    }

    /// Forgets the viewers that do not count now.
    pub fn cleanup_inactive_viewers(&mut self)
        requires
            old(self).wf(),
        ensures
            final(self).wf(),
            exists|now: Timestamp| final(self)@ == #[trigger] old(self)@.swept(now),
    {
        let now = utc_now();
        self.cleanup_inactive_viewers_at(now);
    }

    /// The digests of those viewers that do not count at `now`.
    fn stale_viewers(&self, viewers: &Registry<ViewerInfo>, now: Timestamp) -> (r: Vec<String>)
        requires
            viewers.wf(),
        ensures
            crate::text::texts(r@).to_set() == viewers@.dom().filter(
                |h: Seq<char>| !is_fresh(viewers@[h].last_seen, now, self@.timeout),
            ),
    {
        let ghost order = viewers.order();
        proof {
            viewers.lemma_order();
        }
        let mut out: Vec<String> = Vec::new();
        let mut i: usize = 0;
        while i < viewers.len()
            invariant
                viewers.wf(),
                order == viewers.order(),
                0 <= i <= order.len(),
                forall|j: int|
                    0 <= j < out@.len() ==> viewers@.contains_key((#[trigger] out@[j])@) && !is_fresh(
                        viewers@[out@[j]@].last_seen,
                        now,
                        self@.timeout,
                    ),
                forall|m: int|
                    0 <= m < i && !is_fresh(viewers@[#[trigger] order[m]].last_seen, now, self@.timeout)
                        ==> crate::text::texts(out@).contains(order[m]),
            decreases order.len() - i,
        {
            proof {
                viewers.lemma_order();
                assert(viewers@.contains_key(order[i as int]));
            }
            let ghost so_far = out@;
            if !self.fresh(viewers.value_at(i).last_seen, now) {
                out.push(viewers.key_at(i).clone());
                assert(crate::text::texts(out@)[so_far.len() as int] == order[i as int]);
            }
            assert forall|m: int|
                0 <= m < i + 1 && !is_fresh(
                    viewers@[#[trigger] order[m]].last_seen,
                    now,
                    self@.timeout,
                ) implies crate::text::texts(out@).contains(order[m]) by {
                if m < i {
                    let j = crate::text::texts(so_far).index_of(order[m]);
                    assert(crate::text::texts(so_far).contains(order[m]));
                    assert(crate::text::texts(out@)[j] == order[m]);
                }
            }
            i = i + 1;
        }
        proof {
            let found = crate::text::texts(out@);
            let stale = viewers@.dom().filter(
                |h: Seq<char>| !is_fresh(viewers@[h].last_seen, now, self@.timeout),
            );
            assert forall|h: Seq<char>| found.contains(h) implies stale.contains(h) by {
                let j = found.index_of(h);
                assert(out@[j]@ == h);
            }
            assert forall|h: Seq<char>| stale.contains(h) implies found.contains(h) by {
                let m = order.index_of(h);
                assert(order.contains(h));
                assert(order[m] == h);
            }
            assert(found.to_set() =~= stale);
        }
        out
    }

    /// Forgets the viewers that do not count at `now`.
    pub fn cleanup_inactive_viewers_at(&mut self, now: Timestamp)
        requires
            old(self).wf(),
        ensures
            final(self).wf(),
            final(self)@ == old(self)@.swept(now),
    {
        if !self.tracking_enabled {
            return;
        }
        let ghost v = self@;
        let ghost before = self.viewers@;
        let ghost order = self.viewers.order();
        proof {
            self.viewers.lemma_order();
        }
        let mut i: usize = 0;
        while i < self.viewers.len()
            invariant
                self.viewers.wf(),
                v == old(self)@,
                before == old(self).viewers@,
                old(self).wf(),
                self.viewer_timeout == v.timeout,
                self.tracking_enabled == v.tracking,
                order == self.viewers.order(),
                order == old(self).viewers.order(),
                order.no_duplicates(),
                0 <= i <= order.len(),
                self.viewers@.dom() == before.dom(),
                forall|j: int|
                    i <= j < order.len() ==> self.viewers@[#[trigger] order[j]] == before[order[j]],
                forall|j: int|
                    0 <= j < i ==> (self.viewers@[#[trigger] order[j]]).wf() && self.viewers@[order[j]]@
                        == before[order[j]]@.restrict(v.live_viewers(order[j], now)),
            decreases order.len() - i,
        {
            let ghost stream = order[i as int];
            proof {
                self.viewers.lemma_order();
                assert(self.viewers@.contains_key(stream));
            }
            let stale = self.stale_viewers(self.viewers.value_at(i), now);
            let viewers = self.viewers.value_at_mut(i);
            viewers.remove_keys(&stale);
            proof {
                old(self).lemma_live_viewers(stream, now);
                assert(self.viewers@[stream]@ =~= before[stream]@.restrict(v.live_viewers(stream, now)));
            }
            i = i + 1;
        }
        proof {
            let w = v.swept(now);
            old(self).viewers.lemma_order();
            assert forall|k: Seq<char>| #[trigger] self.viewers@.contains_key(k) implies {
                &&& self.viewers@[k].wf()
                &&& self.viewers@[k]@ == before[k]@.restrict(v.live_viewers(k, now))
            } by {
                let j = order.index_of(k);
                assert(order.contains(k));
                assert(order[j] == k);
            }
            assert forall|k: Seq<char>| #[trigger] self@.streams.contains_key(k) implies self@.streams[k]
                =~= w.streams[k] by {
                assert(self.viewers@.contains_key(k));
            }
            assert(self@.streams =~= w.streams);
            assert(self@ == w);
            assert forall|k: Seq<char>| #[trigger] w.streams.contains_key(k) implies w.streams[k].dom().finite() by {
                old(self).lemma_live_viewers(k, now);
                assert(w.streams[k].dom() =~= v.live_viewers(k, now));
            }
        }
    }

    /// Forgets a stream with its viewers.
    pub fn clear_stream_viewers(&mut self, stream_key: &str)
        requires
            old(self).wf(),
        ensures
            final(self).wf(),
            final(self)@ == old(self)@.cleared(stream_key@),
    {
        if !self.tracking_enabled {
            return;
        }
        let ghost v = self@;
        self.viewers.remove(stream_key);
        assert(self@.streams =~= v.cleared(stream_key@).streams);
        assert(self@ == v.cleared(stream_key@));
    }

    /// The viewers that a stream has now.
    pub fn get_stream_viewers(&self, stream_key: &str) -> (r: Vec<ViewerInfo>)
        requires
            self.wf(),
        ensures
            exists|now: Timestamp| #[trigger] self@.lists_viewers(r@, stream_key@, now),
    {
        let now = utc_now();
        self.stream_viewers_at(stream_key, now)
    }

    /// The viewers that a stream has at `now`.
    pub fn stream_viewers_at(&self, stream_key: &str, now: Timestamp) -> (r: Vec<ViewerInfo>)
        requires
            self.wf(),
        ensures
            self@.lists_viewers(r@, stream_key@, now),
    {
        let mut out: Vec<ViewerInfo> = Vec::new();
        if !self.tracking_enabled {
            return out;
        }
        match self.viewers.get(stream_key) {
            Some(viewers) => {
                let ghost order = viewers.order();
                let ghost test = |h: Seq<char>| self@.live(stream_key@, h, now);
                proof {
                    viewers.lemma_order();
                    lemma_count(order, test);
                    reveal(Seq::filter);
                    assert(order.take(0) =~= Seq::<Seq<char>>::empty());
                }
                let mut i: usize = 0;
                assert(hashes(out@) =~= order.take(0).filter(test));
                while i < viewers.len()
                    invariant
                        self.wf(),
                        self.viewers@.contains_key(stream_key@),
                        *viewers == self.viewers@[stream_key@],
                        viewers.wf(),
                        order == viewers.order(),
                        test == (|h: Seq<char>| self@.live(stream_key@, h, now)),
                        0 <= i <= order.len(),
                        hashes(out@) == order.take(i as int).filter(test),
                        forall|j: int|
                            0 <= j < out@.len() ==> (#[trigger] out@[j])@ == self@.viewers_of(
                                stream_key@,
                            )[out@[j].viewer_hash@],
                    decreases order.len() - i,
                {
                    proof {
                        viewers.lemma_order();
                        reveal(Seq::filter);
                        assert(order.take(i + 1).drop_last() =~= order.take(i as int));
                        assert(viewers@.contains_key(order[i as int]));
                        assert(self@.streams[stream_key@].contains_key(order[i as int]));
                    }
                    let ghost so_far = hashes(out@);
                    let viewer = viewers.value_at(i);
                    let counts = self.fresh(viewer.last_seen, now);
                    assert(counts == test(order[i as int]));
                    if counts {
                        out.push(viewer.duplicate());
                        assert(hashes(out@) =~= so_far.push(order[i as int]));
                    }
                    i = i + 1;
                }
                assert(order.take(i as int) =~= order);
                assert(order.to_set() =~= self@.viewers_of(stream_key@).dom());
            },
            None => {
                assert(hashes(out@).to_set() =~= self@.live_viewers(stream_key@, now));
            },
        }
        out
    }
}

proof fn lemma_pairs_of_next_stream(v: ViewersView, order: Seq<Seq<char>>, i: int, now: Timestamp)
    requires
        order.no_duplicates(),
        0 <= i < order.len(),
        v.live_pairs(order.take(i).to_set(), now).finite(),
        v.live_viewers(order[i], now).finite(),
    ensures
        v.live_pairs(order.take(i + 1).to_set(), now).finite(),
        v.live_pairs(order.take(i + 1).to_set(), now).len() == v.live_pairs(
            order.take(i).to_set(),
            now,
        ).len() + v.live_viewers(order[i], now).len(),
{
    let stream = order[i];
    let before = v.live_pairs(order.take(i).to_set(), now);
    let here = v.live_viewers(stream, now);
    let pair = |h: Seq<char>| (stream, h);
    let added = here.map(pair);
    assert(order.take(i + 1).to_set() =~= order.take(i).to_set().insert(stream)) by {
        assert(order.take(i + 1) =~= order.take(i).push(stream));
        assert forall|q: Seq<char>| order.take(i).contains(q) implies order.take(i + 1).contains(q) by {
            let m = order.take(i).index_of(q);
            assert(order.take(i + 1)[m] == q);
        }
        assert(order.take(i + 1)[i] == stream);
    }
    assert(!order.take(i).contains(stream)) by {
        if order.take(i).contains(stream) {
            let m = order.take(i).index_of(stream);
            assert(order[m] == order[i]);
        }
    }
    assert forall|p: (Seq<char>, Seq<char>)|
        v.live_pairs(order.take(i + 1).to_set(), now).contains(p) <==> before.union(added).contains(p) by {
        if p.0 == stream && v.live(stream, p.1, now) {
            assert(here.contains(p.1));
            assert(pair(p.1) == p);
        }
    }
    assert(v.live_pairs(order.take(i + 1).to_set(), now) =~= before.union(added));
    vstd::set_lib::lemma_map_size(here, added, pair);
    assert(before.disjoint(added));
    vstd::set_lib::lemma_set_disjoint_lens(before, added);
}

// ---------------------------------------------------------------------------
// Laws
// ---------------------------------------------------------------------------

/// Other bytes stand for viewers with another address or another user agent, and their
/// digests differ unless SHA-256 itself gives two different inputs one digest.
pub proof fn law_viewers_are_told_apart(
    ip: Seq<char>,
    user_agent: Option<Seq<char>>,
    other_ip: Seq<char>,
    other_agent: Option<Seq<char>>,
)
    requires
        ip != other_ip || user_agent != other_agent,
    ensures
        viewer_bytes(ip, user_agent) != viewer_bytes(other_ip, other_agent),
        viewer_hash(ip, user_agent) == viewer_hash(other_ip, other_agent) ==> sha256(
            viewer_bytes(ip, user_agent),
        ) == sha256(viewer_bytes(other_ip, other_agent)),
{
    broadcast use encode_utf8_valid_utf8, encode_utf8_decode_utf8;

    let (a, b) = (viewer_bytes(ip, user_agent), viewer_bytes(other_ip, other_agent));
    let (p, q) = (encode_utf8(ip), encode_utf8(other_ip));
    lemma_no_separator(p);
    lemma_no_separator(q);
    if a == b {
        if p.len() < q.len() {
            assert(b[p.len() as int] == q[p.len() as int]);
            assert(user_agent is Some ==> a[p.len() as int] == SEPARATOR);
        }
        if q.len() < p.len() {
            assert(a[q.len() as int] == p[q.len() as int]);
            assert(other_agent is Some ==> b[q.len() as int] == SEPARATOR);
        }
        assert(p =~= a.take(p.len() as int));
        assert(q =~= b.take(q.len() as int));
        assert(decode_utf8(p) == ip && decode_utf8(q) == other_ip);
        if let (Some(ua), Some(ub)) = (user_agent, other_agent) {
            assert(encode_utf8(ua) =~= a.skip(p.len() as int + 1));
            assert(encode_utf8(ub) =~= b.skip(q.len() as int + 1));
            assert(decode_utf8(encode_utf8(ua)) == ua && decode_utf8(encode_utf8(ub)) == ub);
        }
    }
    if viewer_hash(ip, user_agent) == viewer_hash(other_ip, other_agent) {
        lemma_hex_is_unique(sha256(a), sha256(b));
    }
}

impl ViewersView {
    /// How many viewers of some streams count at `now`, stream by stream.
    pub open spec fn viewers_over(self, streams: Seq<Seq<char>>, now: Timestamp) -> nat
        decreases streams.len(),
    {
        if streams.len() == 0 {
            0
        } else {
            self.viewers_over(streams.drop_last(), now) + self.viewer_count(streams.last(), now)
        }
    }
}

proof fn lemma_viewers_over(v: ViewersView, streams: Seq<Seq<char>>, now: Timestamp)
    requires
        v.consistent(),
        streams.no_duplicates(),
    ensures
        v.live_pairs(streams.to_set(), now).finite(),
        v.viewers_over(streams, now) == (if v.tracking {
            v.live_pairs(streams.to_set(), now).len()
        } else {
            0
        }),
    decreases streams.len(),
{
    if streams.len() == 0 {
        assert(v.live_pairs(streams.to_set(), now) =~= Set::<(Seq<char>, Seq<char>)>::empty());
    } else {
        let i = streams.len() - 1;
        lemma_viewers_over(v, streams.drop_last(), now);
        assert(streams.take(i) =~= streams.drop_last());
        assert(streams.take(i + 1) =~= streams);
        v.viewers_of(streams[i]).dom().lemma_len_filter(
            |h: Seq<char>| v.live(streams[i], h, now),
        );
        lemma_pairs_of_next_stream(v, streams, i, now);
    }
}

/// The total count is the sum of the counts of all streams.
pub proof fn law_viewer_total_is_sum_over_streams(
    v: ViewersView,
    streams: Seq<Seq<char>>,
    now: Timestamp,
)
    requires
        v.consistent(),
        streams.no_duplicates(),
        streams.to_set() == v.streams.dom(),
    ensures
        v.total_viewers(now) == v.viewers_over(streams, now),
{
    lemma_viewers_over(v, streams, now);
}

/// After a request a viewer of a stream counts exactly until more whole seconds than the
/// timeout have passed since then; a new viewer adds one to the count until then, and no
/// other stream's count depends on it.
pub proof fn law_viewer_counts_until_timeout(
    v: ViewersView,
    stream: Seq<char>,
    hash: Seq<char>,
    other: Seq<char>,
    seen: Timestamp,
    now: Timestamp,
)
    requires
        v.consistent(),
        v.tracking,
        other != stream,
    ensures
        ({
            let w = v.noted(stream, hash, seen);
            let fresh = seconds_between(now, seen) <= v.timeout as i64;
            &&& w.live_viewers(stream, now).contains(hash) <==> fresh
            &&& !v.viewers_of(stream).contains_key(hash) ==> w.viewer_count(stream, now)
                == v.viewer_count(stream, now) + (if fresh {
                1nat
            } else {
                0
            })
            &&& w.viewer_count(other, now) == v.viewer_count(other, now)
        }),
{
    let w = v.noted(stream, hash, seen);
    let f = |h: Seq<char>| v.live(stream, h, now);
    v.viewers_of(stream).dom().lemma_len_filter(f);
    assert(w.viewers_of(stream).contains_key(hash));
    assert(w.live(stream, hash, now) == (seconds_between(now, seen) <= v.timeout as i64));
    assert(w.live_viewers(other, now) =~= v.live_viewers(other, now));
    if !v.viewers_of(stream).contains_key(hash) {
        if seconds_between(now, seen) <= v.timeout as i64 {
            assert(w.live_viewers(stream, now) =~= v.live_viewers(stream, now).insert(hash));
        } else {
            assert(w.live_viewers(stream, now) =~= v.live_viewers(stream, now));
        }
    }
}

/// Each request of a viewer is counted and noted; when the viewer was first seen stays, and
/// other viewers do.
pub proof fn law_viewer_requests_are_counted(
    v: ViewersView,
    stream: Seq<char>,
    hash: Seq<char>,
    other: Seq<char>,
    now: Timestamp,
)
    requires
        v.tracking,
        other != hash,
    ensures
        ({
            let known = v.viewers_of(stream);
            let after = v.noted(stream, hash, now).viewers_of(stream);
            &&& after.contains_key(hash)
            &&& after[hash].last_seen == now
            &&& !known.contains_key(hash) ==> after[hash].first_seen == now && after[hash].request_count
                == 1 && after[hash].viewer_hash == hash
            &&& known.contains_key(hash) ==> after[hash].first_seen == known[hash].first_seen
            &&& known.contains_key(hash) && known[hash].request_count < u64::MAX
                ==> after[hash].request_count == known[hash].request_count + 1
            &&& after.contains_key(other) <==> known.contains_key(other)
            &&& known.contains_key(other) ==> after[other] == known[other]
        }),
{
}

/// A sweep forgets exactly the viewers who have been silent for more whole seconds than the
/// timeout.
pub proof fn law_viewer_sweep_forgets_the_silent(
    v: ViewersView,
    stream: Seq<char>,
    hash: Seq<char>,
    now: Timestamp,
)
    requires
        v.tracking,
    ensures
        v.swept(now).viewers_of(stream).contains_key(hash) <==> v.viewers_of(stream).contains_key(hash)
            && seconds_between(now, v.viewers_of(stream)[hash].last_seen) <= v.timeout as i64,
        v.swept(now).viewers_of(stream).contains_key(hash) ==> v.swept(now).viewers_of(stream)[hash]
            == v.viewers_of(stream)[hash],
{
}

/// Hexadecimal notation writes each byte as two digits, the sixteens first.
pub proof fn law_hexadecimal_writes_sixteens_first(data: Seq<u8>, b: u8)
    ensures
        lower_hex(Seq::<u8>::empty()).len() == 0,
        lower_hex(data.push(b)) == lower_hex(data) + seq![
            ("0123456789abcdef"@)[b as int / 16],
            ("0123456789abcdef"@)[b as int % 16],
        ],
{
    assert(data.push(b).drop_last() =~= data);
    assert(lower_hex(data.push(b)) =~= lower_hex(data) + seq![
        ("0123456789abcdef"@)[b as int / 16],
        ("0123456789abcdef"@)[b as int % 16],
    ]);
}

/// However often a viewer asks, one more viewer counts at most: exactly one more where
/// the viewer did not count before, and none where the viewer did. Other streams keep
/// their counts.
pub proof fn law_viewer_counts_once(
    v: ViewersView,
    stream: Seq<char>,
    other: Seq<char>,
    hash: Seq<char>,
    now: Timestamp,
)
    requires
        v.consistent(),
        v.tracking,
        v.timeout as i64 >= 0,
        other != stream,
    ensures
        v.noted(stream, hash, now).viewer_count(stream, now) == v.viewer_count(stream, now) + (if v.live(
            stream,
            hash,
            now,
        ) {
            0int
        } else {
            1int
        }),
        v.noted(stream, hash, now).viewer_count(other, now) == v.viewer_count(other, now),
        v.noted(stream, hash, now).noted(stream, hash, now).viewer_count(stream, now) == v.noted(
            stream,
            hash,
            now,
        ).viewer_count(stream, now),
{
    let w = v.noted(stream, hash, now);
    let x = w.noted(stream, hash, now);
    assert(w.live_viewers(stream, now) =~= v.live_viewers(stream, now).insert(hash));
    assert(x.live_viewers(stream, now) =~= w.live_viewers(stream, now));
    assert(w.live_viewers(other, now) =~= v.live_viewers(other, now));
    v.viewers_of(stream).dom().lemma_len_filter(|h: Seq<char>| v.live(stream, h, now));
    assert(v.live_viewers(stream, now).contains(hash) <==> v.live(stream, hash, now));
    if v.live(stream, hash, now) {
        assert(w.live_viewers(stream, now) =~= v.live_viewers(stream, now));
    }
}

/// Forgetting the viewers that do not count changes no viewer count at that moment.
pub proof fn law_viewer_sweep_keeps_counts(v: ViewersView, stream: Seq<char>, now: Timestamp)
    ensures
        v.swept(now).viewer_count(stream, now) == v.viewer_count(stream, now),
        v.swept(now).total_viewers(now) == v.total_viewers(now),
{
    let w = v.swept(now);
    if v.tracking {
        assert(w.live_viewers(stream, now) =~= v.live_viewers(stream, now));
        assert forall|p: (Seq<char>, Seq<char>)| w.live_pairs(w.streams.dom(), now).contains(p)
            == v.live_pairs(v.streams.dom(), now).contains(p) by {
            if v.streams.contains_key(p.0) && v.live(p.0, p.1, now) {
                assert(v.live_viewers(p.0, now).contains(p.1));
            }
        }
        assert(w.live_pairs(w.streams.dom(), now) =~= v.live_pairs(v.streams.dom(), now));
    }
}

/// Where viewers are followed, forgetting leaves exactly those that count at that moment.
pub proof fn law_viewer_sweep_leaves_live_viewers(
    v: ViewersView,
    stream: Seq<char>,
    hash: Seq<char>,
    now: Timestamp,
)
    requires
        v.tracking,
    ensures
        v.swept(now).viewers_of(stream).contains_key(hash) <==> v.live(stream, hash, now),
{
    if v.live(stream, hash, now) {
        assert(v.live_viewers(stream, now).contains(hash));
    }
}

/// A stream that was forgotten has no viewers.
pub proof fn law_forgotten_stream_has_no_viewers(v: ViewersView, stream: Seq<char>, now: Timestamp)
    ensures
        v.cleared(stream).viewer_count(stream, now) == 0,
{
    let w = v.cleared(stream);
    assert(w.tracking ==> w.live_viewers(stream, now) =~= Set::<Seq<char>>::empty());
}

/// The viewers of a stream are those last seen at most as many whole seconds ago as the
/// timeout. Without tracking there are none, nothing is noted and nothing changes. Clearing
/// a stream leaves the viewers of every other.
pub proof fn law_viewers_were_seen_in_time(
    v: ViewersView,
    stream: Seq<char>,
    other: Seq<char>,
    hash: Seq<char>,
    now: Timestamp,
)
    requires
        other != stream,
    ensures
        v.tracking ==> v.viewer_count(stream, now) == v.viewers_of(stream).dom().filter(
            |h: Seq<char>| seconds_between(now, v.viewers_of(stream)[h].last_seen) <= v.timeout as i64,
        ).len(),
        !v.tracking ==> v.viewer_count(stream, now) == 0 && v.total_viewers(now) == 0,
        !v.tracking ==> v.noted(stream, hash, now) == v && v.swept(now) == v,
        v.cleared(stream).viewers_of(other) == v.viewers_of(other),
{
    let seen = v.viewers_of(stream).dom().filter(
        |h: Seq<char>| seconds_between(now, v.viewers_of(stream)[h].last_seen) <= v.timeout as i64,
    );
    assert(v.live_viewers(stream, now) =~= seen);
}

/// A counter shows a number as it is, as long as the number fits.
pub proof fn law_counts_are_shown_as_they_are(n: nat)
    requires
        n <= usize::MAX,
    ensures
        as_count(n) == n,
{
    lemma_small_mod(n, (usize::MAX + 1) as nat);
}

/// The list of the viewers of a stream has as many rows as viewers count, each tells what is
/// known of a viewer that was last seen at most as many whole seconds ago as the timeout, and
/// every such viewer has one row.
pub proof fn law_list_shows_each_viewer_once(
    v: ViewersView,
    rows: Seq<ViewerInfo>,
    stream: Seq<char>,
    now: Timestamp,
    i: int,
    hash: Seq<char>,
)
    requires
        v.lists_viewers(rows, stream, now),
        0 <= i < rows.len(),
    ensures
        v.tracking,
        rows.len() == v.viewer_count(stream, now),
        v.viewers_of(stream).contains_key(rows[i].viewer_hash@),
        rows[i]@ == v.viewers_of(stream)[rows[i].viewer_hash@],
        seconds_between(now, rows[i].last_seen) <= v.timeout as i64,
        v.viewers_of(stream).contains_key(hash) && seconds_between(
            now,
            v.viewers_of(stream)[hash].last_seen,
        ) <= v.timeout as i64 ==> exists|j: int|
            0 <= j < rows.len() && (#[trigger] rows[j]).viewer_hash@ == hash,
{
    let listed = hashes(rows);
    listed.unique_seq_to_set();
    assert(listed[i] == rows[i].viewer_hash@);
    assert(listed.to_set().contains(listed[i])) by {
        assert(listed.contains(listed[i]));
    }
    assert(rows[i]@ == v.viewers_of(stream)[rows[i].viewer_hash@]);
    if v.live_viewers(stream, now).contains(hash) {
        assert(listed.to_set().contains(hash));
        assert(listed.contains(hash));
        let j = listed.index_of(hash);
        assert(rows[j].viewer_hash@ == hash);
    }
}

} // verus!
