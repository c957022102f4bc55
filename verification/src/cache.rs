//! Segments kept in memory: what is let in, what is counted, and what a request gets.
use crate::paths::{extension, law_extension_follows_last_dot, path_extension};
use crate::registry::Registry;
use crate::text::{cat2, has_prefix, lemma_filter_contains, same_text, starts_with, texts};
use vstd::prelude::*;
use vstd::string::*;

verus! {

broadcast use vstd::string::group_string_axioms;

/// The bytes of a segment and their media type.
#[derive(Debug, Clone, PartialEq)]
pub struct CachedSegment {
    pub data: Vec<u8>,
    pub content_type: &'static str,
}

/// What a cache counts over its life. Each counter wraps around at its end.
#[derive(Debug, Clone, Copy, PartialEq, Eq)]
pub struct CacheStats {
    pub hits: u64,
    pub misses: u64,
    pub memory_bytes: u64,
}

#[derive(Debug, Clone, Copy, PartialEq, Eq)]
pub struct CacheStatsSnapshot {
    pub total_entries: usize,
    pub hits: u64,
    pub misses: u64,
    pub memory_bytes: u64,
}

/// Why a segment could not be loaded.
#[derive(Debug, Clone, Copy, PartialEq, Eq)]
pub enum LoadError {
    NotFound,
    TooLarge { size: usize, limit: usize },
    Unreadable,
}

/// What a request gets from the cache at first.
#[derive(Debug, PartialEq)]
pub enum Lookup {
    /// The segment was there.
    Hit(CachedSegment),
    /// The segment has to be loaded.
    Load,
}

/// The limits and the counters of the cache, the keys of the segments that it holds, and
/// those of segments that were dropped and may not have left yet. The segments themselves
/// are kept by the concurrent cache that the limits are handed to.
pub struct SegmentCache {
    pub max_entries: usize,
    pub max_file_size: usize,
    pub ttl_seconds: u64,
    pub stats: CacheStats,
    entries: Registry<()>,
    dropped: Registry<()>,
}

/// The limits, the counters and the keys of a cache.
#[verifier::ext_equal]
pub struct CacheView {
    pub max_entries: usize,
    pub max_file_size: usize,
    pub ttl_seconds: u64,
    pub stats: CacheStats,
    pub entries: Set<Seq<char>>,
    pub dropped: Set<Seq<char>>,
}

/// An entry of the cache holds a segment of a stream.
pub open spec fn is_entry_of(cache_key: Seq<char>, stream: Seq<char>) -> bool {
    has_prefix(cache_key, stream + "/"@)
}

impl CacheView {
    /// The cache with other counts.
    pub open spec fn counting(self, stats: CacheStats) -> CacheView {
        CacheView { stats, ..self }
    }

    /// The cache with one more segment.
    pub open spec fn with(self, key: Seq<char>) -> CacheView {
        CacheView { entries: self.entries.insert(key), dropped: self.dropped.remove(key), ..self }
    }

    /// The cache without a segment, dropped or not.
    pub open spec fn without(self, key: Seq<char>) -> CacheView {
        CacheView { entries: self.entries.remove(key), dropped: self.dropped.remove(key), ..self }
    }

    /// The cache after a segment left. Where one was dropped under the key, it is that one.
    pub open spec fn left_by(self, key: Seq<char>) -> CacheView {
        if self.dropped.contains(key) {
            CacheView { dropped: self.dropped.remove(key), ..self }
        } else {
            CacheView { entries: self.entries.remove(key), ..self }
        }
    }

    /// The segments of a stream that the cache holds.
    pub open spec fn segments_of(self, stream: Seq<char>) -> Set<Seq<char>> {
        self.entries.filter(|k: Seq<char>| is_entry_of(k, stream))
    }

    /// The cache after the segments of a stream were dropped.
    pub open spec fn without_stream(self, stream: Seq<char>) -> CacheView {
        CacheView {
            entries: self.entries.filter(|k: Seq<char>| !is_entry_of(k, stream)),
            dropped: self.dropped.union(self.segments_of(stream)),
            ..self
        }
    }

    /// What a request gets at first, with what is kept under its key: a segment that was
    /// not dropped, or nothing.
    pub open spec fn lookup(self, key: Seq<char>, found: Option<CachedSegment>) -> Lookup {
        match found {
            Some(segment) if !self.dropped.contains(key) => Lookup::Hit(segment),
            _ => Lookup::Load,
        }
    }

    /// The cache after a request, with what is kept under its key.
    pub open spec fn looked_up(self, key: Seq<char>, found: Option<CachedSegment>) -> CacheView {
        if found is None {
            self.without(key)
        } else if self.dropped.contains(key) {
            self
        } else {
            self.with(key).counting(self.stats.hit())
        }
    }
}

impl Lookup {
    /// What the request is answered with, if the segment was there: the segment, and that
    /// it came from the cache.
    pub fn served(self) -> (r: Option<(CachedSegment, bool)>)
        ensures
            r == (match self {
                Lookup::Hit(segment) => Some((segment, true)),
                Lookup::Load => None,
            }),
    {
        match self {
            Lookup::Hit(segment) => Some((segment, true)),
            Lookup::Load => None,
        }
    }
}

/// The media type of a file: that of a transport stream segment for `.ts` files.
pub open spec fn media_type(path: Seq<char>) -> Seq<char> {
    if extension(path) == Some("ts"@) {
        "video/MP2T"@
    } else {
        "application/octet-stream"@
    }
}

impl CacheStats {
    /// Nothing counted.
    pub open spec fn zero() -> CacheStats {
        CacheStats { hits: 0, misses: 0, memory_bytes: 0 }
    }

    /// One more request that found its segment.
    pub open spec fn hit(self) -> CacheStats {
        CacheStats { hits: self.hits.wrapping_add(1), ..self }
    }

    /// One more request for which the segment was loaded.
    pub open spec fn missed(self) -> CacheStats {
        CacheStats { misses: self.misses.wrapping_add(1), ..self }
    }

    /// `size` more bytes held.
    pub open spec fn filled(self, size: u64) -> CacheStats {
        CacheStats { memory_bytes: self.memory_bytes.wrapping_add(size), ..self }
    }

    /// `size` fewer bytes held.
    pub open spec fn drained(self, size: u64) -> CacheStats {
        CacheStats { memory_bytes: self.memory_bytes.wrapping_sub(size), ..self }
    }

    fn new() -> (r: Self)
        ensures
            r == CacheStats::zero(),
    {
        CacheStats { hits: 0, misses: 0, memory_bytes: 0 }
    }
}

impl SegmentCache {
    pub closed spec fn view(&self) -> CacheView {
        CacheView {
            max_entries: self.max_entries,
            max_file_size: self.max_file_size,
            ttl_seconds: self.ttl_seconds,
            stats: self.stats,
            entries: self.entries@.dom(),
            dropped: self.dropped@.dom(),
        }
    }

    pub closed spec fn wf(&self) -> bool {
        self.entries.wf() && self.dropped.wf()
    }

    /// A cache of at most `max_entries` segments, each of at most `max_segment_size`
    /// bytes and kept for `ttl_seconds`.
    pub fn new(max_entries: usize, max_segment_size: usize, ttl_seconds: u64) -> (r: Self)
        ensures
            r.wf(),
            r@ == (CacheView {
                max_entries,
                max_file_size: max_segment_size,
                ttl_seconds,
                stats: CacheStats::zero(),
                entries: Set::empty(),
                dropped: Set::empty(),
            }),
    {
        let r = SegmentCache {
            max_entries,
            max_file_size: max_segment_size,
            ttl_seconds,
            stats: CacheStats::new(),
            entries: Registry::new(),
            dropped: Registry::new(),
        };
        assert(r@.entries =~= Set::<Seq<char>>::empty());
        assert(r@.dropped =~= Set::<Seq<char>>::empty());
        r
    }

    /// A request for a segment, with what is kept under its key. A segment that is kept and
    /// was not dropped is the answer and counts as a hit; else it has to be loaded.
    pub fn get_or_load(&mut self, key: &str, found: Option<CachedSegment>) -> (r: Lookup)
        requires
            old(self).wf(),
        ensures
            final(self).wf(),
            r == old(self)@.lookup(key@, found),
            final(self)@ == old(self)@.looked_up(key@, found),
    {
        match found {
            Some(segment) => {
                if self.dropped.contains_key(key) {
                    return Lookup::Load;
                }
                self.entries.insert(key.to_owned(), ());
                self.stats.hits = self.stats.hits.wrapping_add(1);
                assert(self@ =~= old(self)@.with(key@).counting(old(self)@.stats.hit()));
                Lookup::Hit(segment)
            },
            None => {
                self.entries.remove(key);
                self.dropped.remove(key);
                assert(self@ =~= old(self)@.without(key@));
                Lookup::Load
            },
        }
    }

    /// Whether a file may be loaded, given its size if there is one: the size, or what
    /// is wrong.
    pub fn check_size(&self, file_size: Option<u64>) -> (r: Result<usize, LoadError>)
        ensures
            r == (match file_size {
                None => Err::<usize, LoadError>(LoadError::NotFound),
                Some(size) => if size as usize > self@.max_file_size {
                    Err(LoadError::TooLarge { size: size as usize, limit: self@.max_file_size })
                } else {
                    Ok(size as usize)
                },
            }),
    {
        match file_size {
            None => Err(LoadError::NotFound),
            Some(size) => {
                let size: usize = size as usize;
                if size > self.max_file_size {
                    Err(LoadError::TooLarge { size, limit: self.max_file_size })
                } else {
                    Ok(size)
                }
            },
        }
    }

    /// The segment made of a file that was admitted with `file_size` bytes and then read.
    /// Its size counts as memory held.
    pub fn load(&mut self, file_path: &str, file_size: usize, data: Option<Vec<u8>>) -> (r: Result<
        CachedSegment,
        LoadError,
    >)
        requires
            old(self).wf(),
        ensures
            final(self).wf(),
            match data {
                Some(bytes) => {
                    &&& r is Ok
                    &&& r->Ok_0.data == bytes
                    &&& r->Ok_0.content_type@ == media_type(file_path@)
                    &&& final(self)@ == old(self)@.counting(old(self)@.stats.filled(file_size as u64))
                },
                None => r == Err::<CachedSegment, LoadError>(LoadError::Unreadable) && final(self)@
                    == old(self)@,
            },
    {
        match data {
            None => Err(LoadError::Unreadable),
            Some(data) => {
                let content_type: &'static str = match path_extension(file_path) {
                    Some(ext) => if same_text(ext.as_str(), "ts") {
                        "video/MP2T"
                    } else {
                        "application/octet-stream"
                    },
                    None => "application/octet-stream",
                };
                self.stats.memory_bytes = self.stats.memory_bytes.wrapping_add(file_size as u64);
                Ok(CachedSegment { data, content_type })
            },
        }
    }

    /// What a request gets that waited for a load: the segment, which the cache then holds
    /// and which counts as a miss, or nothing where the load failed.
    pub fn loaded(&mut self, key: &str, outcome: Result<CachedSegment, LoadError>) -> (r: Option<
        (CachedSegment, bool),
    >)
        requires
            old(self).wf(),
        ensures
            final(self).wf(),
            match outcome {
                Ok(segment) => r == Some((segment, false)) && final(self)@ == old(self)@.with(
                    key@,
                ).counting(old(self)@.stats.missed()),
                Err(_) => r is None && final(self)@ == old(self)@,
            },
    {
        match outcome {
            Ok(segment) => {
                self.stats.misses = self.stats.misses.wrapping_add(1);
                self.entries.insert(key.to_owned(), ());
                self.dropped.remove(key);
                assert(self@ =~= old(self)@.with(key@).counting(old(self)@.stats.missed()));
                Some((segment, false))
            },
            Err(_) => None,
        }
    }

    /// A segment of `size` bytes left the cache.
    pub fn evicted(&mut self, key: &str, size: usize)
        requires
            old(self).wf(),
        ensures
            final(self).wf(),
            final(self)@ == old(self)@.left_by(key@).counting(old(self)@.stats.drained(size as u64)),
    {
        self.stats.memory_bytes = self.stats.memory_bytes.wrapping_sub(size as u64);
        if self.dropped.contains_key(key) {
            self.dropped.remove(key);
        } else {
            self.entries.remove(key);
        }
        assert(self@ =~= old(self)@.left_by(key@).counting(old(self)@.stats.drained(size as u64)));
    }

    /// Whether an entry of the cache holds a segment of a stream, so that it goes when
    /// the stream is stopped.
    pub fn caches_stream(cache_key: &str, stream_key: &str) -> (r: bool)
        ensures
            r == is_entry_of(cache_key@, stream_key@),
    {
        starts_with(cache_key, cat2(stream_key, "/").as_str())
    }

    /// Drops the segments of a stream. Those kept elsewhere for the cache are to go with
    /// them.
    pub fn invalidate_stream(&mut self, stream_key: &str)
        requires
            old(self).wf(),
        ensures
            final(self).wf(),
            final(self)@ == old(self)@.without_stream(stream_key@),
    {
        let ghost order = self.entries.order();
        let ghost test = |k: Seq<char>| is_entry_of(k, stream_key@);
        let mut gone: Vec<String> = Vec::new();
        let mut i: usize = 0;
        proof {
            self.entries.lemma_order();
            assert(order.take(0) =~= Seq::<Seq<char>>::empty());
            reveal(Seq::filter);
            assert(texts(gone@) =~= order.take(0).filter(test));
        }
        while i < self.entries.len()
            invariant
                self.wf(),
                *self == *old(self),
                order == self.entries.order(),
                test == (|k: Seq<char>| is_entry_of(k, stream_key@)),
                0 <= i <= order.len(),
                texts(gone@) == order.take(i as int).filter(test),
            decreases order.len() - i,
        {
            let ghost so_far = texts(gone@);
            let key = self.entries.key_at(i);
            proof {
                assert(order.take(i + 1).drop_last() =~= order.take(i as int));
                reveal(Seq::filter);
            }
            if Self::caches_stream(key.as_str(), stream_key) {
                gone.push(key.clone());
                assert(texts(gone@) =~= so_far.push(order[i as int]));
            }
            i = i + 1;
        }
        assert(order.take(i as int) =~= order);
        self.entries.remove_keys(&gone);
        let ghost all = texts(gone@);
        let mut j: usize = 0;
        assert(all.take(0).to_set() =~= Set::<Seq<char>>::empty());
        assert(self.dropped@.dom() =~= old(self)@.dropped.union(all.take(0).to_set()));
        while j < gone.len()
            invariant
                self.wf(),
                self.max_entries == old(self).max_entries,
                self.max_file_size == old(self).max_file_size,
                self.ttl_seconds == old(self).ttl_seconds,
                self.stats == old(self).stats,
                self.entries@ == old(self).entries@.remove_keys(all.to_set()),
                all == texts(gone@),
                0 <= j <= all.len(),
                self.dropped@.dom() == old(self)@.dropped.union(all.take(j as int).to_set()),
            decreases all.len() - j,
        {
            assert(all.take(j + 1) =~= all.take(j as int).push(all[j as int]));
            assert forall|k: Seq<char>| #[trigger]
                all.take(j + 1).to_set().contains(k) <==> all.take(j as int).to_set().insert(
                    all[j as int],
                ).contains(k) by {
                if all.take(j as int).contains(k) {
                    assert(all.take(j + 1)[all.take(j as int).index_of(k)] == k);
                }
                if all.take(j + 1).contains(k) {
                    let m = all.take(j + 1).index_of(k);
                    if m < j {
                        assert(all.take(j as int)[m] == k);
                    }
                }
                assert(all.take(j + 1)[j as int] == all[j as int]);
            }
            assert(all.take(j + 1).to_set() =~= all.take(j as int).to_set().insert(all[j as int]));
            self.dropped.insert(gone[j].clone(), ());
            assert(self.dropped@.dom() =~= old(self)@.dropped.union(all.take(j + 1).to_set()));
            j = j + 1;
        }
        proof {
            assert(all.take(j as int) =~= all);
            old(self).entries.lemma_order();
            assert forall|k: Seq<char>|
                all.to_set().contains(k) <==> #[trigger] old(self)@.segments_of(stream_key@).contains(k) by {
                lemma_filter_contains(order, test, k);
                assert(order.contains(k) <==> order.to_set().contains(k));
            }
            assert(self@ =~= old(self)@.without_stream(stream_key@));
        }
    }

    /// The counts, with the number of entries that are kept.
    pub fn stats(&self, entry_count: u64) -> (r: CacheStatsSnapshot)
        ensures
            r == (CacheStatsSnapshot {
                total_entries: entry_count as usize,
                hits: self@.stats.hits,
                misses: self@.stats.misses,
                memory_bytes: self@.stats.memory_bytes,
            }),
    {
        CacheStatsSnapshot {
            total_entries: entry_count as usize,
            hits: self.stats.hits,
            misses: self.stats.misses,
            memory_bytes: self.stats.memory_bytes,
        }
    }
}

/// A segment that was loaded and left again leaves the memory count as it was, also where
/// another load, a hit or a miss comes in between.
pub proof fn law_memory_is_given_back(stats: CacheStats, size: u64, other: u64)
    ensures
        stats.filled(size).drained(size) == stats,
        stats.filled(size).filled(other).drained(size) == stats.filled(other),
        stats.filled(size).hit().drained(size) == stats.hit(),
        stats.filled(size).missed().drained(size) == stats.missed(),
{
}

/// The segments of a stream that were loaded are not served from the cache once the stream
/// was dropped, whatever is still kept for them, until they are loaded again; those of
/// other streams are served as before.
pub proof fn law_dropped_stream_is_not_cached(
    v: CacheView,
    stream: Seq<char>,
    key: Seq<char>,
    other: Seq<char>,
    found: Option<CachedSegment>,
)
    requires
        v.entries.contains(key),
        is_entry_of(key, stream),
        !is_entry_of(other, stream),
    ensures
        !v.without_stream(stream).entries.contains(key),
        v.without_stream(stream).lookup(key, found) == Lookup::Load,
        v.without_stream(stream).with(key).lookup(key, found) == v.with(key).lookup(key, found),
        v.without_stream(stream).entries.contains(other) <==> v.entries.contains(other),
        v.without_stream(stream).lookup(other, found) == v.lookup(other, found),
{
}

/// A segment that was loaded is served from the cache to the next request, as what is kept
/// under its key, with one hit more and no other count changed; whatever other segments
/// come, leave or are dropped in between.
pub proof fn law_loaded_segment_is_served(
    v: CacheView,
    key: Seq<char>,
    segment: CachedSegment,
    other: Seq<char>,
    stream: Seq<char>,
)
    requires
        other != key,
        !is_entry_of(key, stream),
    ensures
        ({
            let w = v.with(key);
            &&& w.lookup(key, Some(segment)) == Lookup::Hit(segment)
            &&& w.looked_up(key, Some(segment)) == w.counting(w.stats.hit())
            &&& w.with(other).lookup(key, Some(segment)) == Lookup::Hit(segment)
            &&& w.left_by(other).lookup(key, Some(segment)) == Lookup::Hit(segment)
            &&& w.without_stream(stream).lookup(key, Some(segment)) == Lookup::Hit(segment)
        }),
{
    let w = v.with(key);
    assert(w.looked_up(key, Some(segment)) =~= w.counting(w.stats.hit()));
}

/// The cached segments of a stream are told from those of every other stream.
pub proof fn law_cache_entries_belong_to_one_stream(
    stream: Seq<char>,
    other: Seq<char>,
    segment: Seq<char>,
)
    requires
        !stream.contains('/'),
        !other.contains('/'),
    ensures
        is_entry_of(stream + "/"@ + segment, other) <==> stream == other,
{
    reveal_strlit("/");
    let entry = stream + "/"@ + segment;
    if stream == other {
        assert(entry.take(stream.len() as int + 1) =~= stream + "/"@);
    }
    if is_entry_of(entry, other) {
        let head = entry.take(other.len() as int + 1);
        assert(head == other + "/"@);
        assert(head[other.len() as int] == '/');
        assert(entry[other.len() as int] == '/');
        if other.len() < stream.len() {
            assert(stream[other.len() as int] == '/');
        }
        if stream.len() < other.len() {
            assert(head[stream.len() as int] == entry[stream.len() as int]);
            assert(other[stream.len() as int] == '/');
        }
        assert(stream =~= other) by {
            assert forall|i: int| 0 <= i < stream.len() implies stream[i] == other[i] by {
                assert(head[i] == entry[i]);
            }
        }
    }
}

/// A file whose name ends in `.ts` is a transport stream segment; one with another extension,
/// or with none, is bytes of any kind.
pub proof fn law_media_type_follows_extension(dir: Seq<char>, stem: Seq<char>, ext: Seq<char>)
    requires
        stem.len() > 0,
        !stem.contains('/'),
        ext.len() > 0,
        !ext.contains('/'),
        !ext.contains('.'),
    ensures
        ext == seq!['t', 's'] ==> media_type(dir + seq!['/'] + stem + seq!['.'] + ext) == "video/MP2T"@,
        ext != seq!['t', 's'] ==> media_type(dir + seq!['/'] + stem + seq!['.'] + ext)
            == "application/octet-stream"@,
        !stem.contains('.') ==> media_type(stem) == "application/octet-stream"@,
{
    reveal_strlit("ts");
    assert("ts"@ =~= seq!['t', 's']);
    law_extension_follows_last_dot(dir, stem, ext);
}

/// A hit is counted as a hit and a load as a miss, each once, and neither as the other; what
/// is loaded or leaves changes the bytes that are held by its size.
pub proof fn law_cache_counts_each_once(stats: CacheStats, size: u64)
    requires
        stats.hits < u64::MAX,
        stats.misses < u64::MAX,
        stats.memory_bytes + size <= u64::MAX,
    ensures
        stats.hit().hits == stats.hits + 1,
        stats.hit().misses == stats.misses,
        stats.hit().memory_bytes == stats.memory_bytes,
        stats.missed().misses == stats.misses + 1,
        stats.missed().hits == stats.hits,
        stats.missed().memory_bytes == stats.memory_bytes,
        stats.filled(size).memory_bytes == stats.memory_bytes + size,
        stats.filled(size).hits == stats.hits,
        stats.filled(size).misses == stats.misses,
        stats.memory_bytes >= size ==> stats.drained(size).memory_bytes == stats.memory_bytes - size,
        stats.drained(size).hits == stats.hits,
        stats.drained(size).misses == stats.misses,
{
}

/// What a request finds decides alone: a segment that is kept and was not dropped is served
/// as it is kept and the hit is counted, and in every other case the segment is to be loaded
/// and nothing is counted; the keys of other segments stay.
pub proof fn law_request_is_hit_or_load(
    v: CacheView,
    key: Seq<char>,
    other: Seq<char>,
    found: Option<CachedSegment>,
)
    requires
        v.stats.hits < u64::MAX,
        other != key,
    ensures
        ({
            let hit = found is Some && !v.dropped.contains(key);
            let after = v.looked_up(key, found);
            &&& hit ==> v.lookup(key, found) == Lookup::Hit(found->0)
            &&& !hit ==> v.lookup(key, found) == Lookup::Load
            &&& after.stats.hits == v.stats.hits + (if hit { 1int } else { 0 })
            &&& after.stats.misses == v.stats.misses
            &&& after.stats.memory_bytes == v.stats.memory_bytes
            &&& hit ==> after.entries.contains(key)
            &&& found is None ==> !after.entries.contains(key) && !after.dropped.contains(key)
            &&& after.entries.contains(other) <==> v.entries.contains(other)
            &&& after.dropped.contains(other) <==> v.dropped.contains(other)
            &&& after.max_entries == v.max_entries && after.max_file_size == v.max_file_size
            &&& after.ttl_seconds == v.ttl_seconds
        }),
{
}

/// A segment that leaves is the one that was dropped under its key, where one was, and else
/// the one that is held; nothing else leaves with it.
pub proof fn law_dropped_segment_leaves_first(v: CacheView, key: Seq<char>, other: Seq<char>)
    requires
        other != key,
    ensures
        ({
            let after = v.left_by(key);
            &&& v.dropped.contains(key) ==> !after.dropped.contains(key) && (after.entries.contains(key)
                <==> v.entries.contains(key))
            &&& !v.dropped.contains(key) ==> !after.entries.contains(key)
            &&& after.entries.contains(other) <==> v.entries.contains(other)
            &&& after.dropped.contains(other) <==> v.dropped.contains(other)
            &&& after.stats == v.stats
        }),
        v.with(key).entries.contains(key) && !v.with(key).dropped.contains(key),
        v.with(key).entries.contains(other) <==> v.entries.contains(other),
        v.with(key).dropped.contains(other) <==> v.dropped.contains(other),
        v.with(key).stats == v.stats,
{
}

} // verus!
