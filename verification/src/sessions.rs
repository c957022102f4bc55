//! Anonymous viewer sessions: who watches which stream, and for how long a silent
//! viewer still counts.
use crate::clock::{elapsed_seconds, seconds_between, utc_now, Timestamp};
use crate::config::ViewerConfig;
use crate::registry::{lemma_count, Registry};
use crate::text::texts;
use crate::vars::{number_or, number_setting, setting, truth_or, truth_setting};
use rand::Rng;
use vstd::arithmetic::power::{lemma_pow_increases, pow};
use vstd::prelude::*;
use vstd::string::*;

verus! {

broadcast use vstd::string::group_string_axioms;

#[derive(Debug, Clone, PartialEq)]
pub struct ViewerSession {
    pub session_id: String,
    pub stream_key: String,
    pub created_at: Timestamp,
    pub last_seen: Timestamp,
    pub request_count: u64,
}

/// What is known of a session.
pub struct SessionView {
    pub session_id: Seq<char>,
    pub stream_key: Seq<char>,
    pub created_at: Timestamp,
    pub last_seen: Timestamp,
    pub request_count: u64,
}

impl View for ViewerSession {
    type V = SessionView;

    open spec fn view(&self) -> SessionView {
        SessionView {
            session_id: self.session_id@,
            stream_key: self.stream_key@,
            created_at: self.created_at,
            last_seen: self.last_seen,
            request_count: self.request_count,
        }
    }
}

/// All sessions, and for each stream the sessions that were opened on it.
#[verifier::ext_equal]
pub struct SessionsView {
    pub sessions: Map<Seq<char>, SessionView>,
    pub streams: Map<Seq<char>, Set<Seq<char>>>,
    pub timeout: u64,
    pub tracking: bool,
}

/// The characters of session ids.
pub open spec fn session_alphabet() -> Seq<char> {
    "abcdefghijklmnopqrstuvwxyz0123456789"@
}

/// Eight characters of the alphabet.
pub open spec fn is_session_id(s: Seq<char>) -> bool {
    s.len() == 8 && forall|i: int| 0 <= i < 8 ==> session_alphabet().contains(#[trigger] s[i])
}

/// More than eight characters of the alphabet.
pub open spec fn is_longer_id(s: Seq<char>) -> bool {
    s.len() > 8 && forall|i: int| 0 <= i < s.len() ==> session_alphabet().contains(#[trigger] s[i])
}

/// How many session ids of eight characters there are.
pub const SESSION_IDS: u64 = 2_821_109_907_456;

/// The last `len` digits of a number to the base of the alphabet, spelled out.
pub open spec fn spelled(n: nat, len: nat) -> Seq<char>
    decreases len,
{
    if len == 0 {
        Seq::empty()
    } else {
        spelled(n / 36, (len - 1) as nat).push(session_alphabet()[(n % 36) as int])
    }
}

/// The number that a text spells out.
pub open spec fn number_spelled(s: Seq<char>) -> nat
    decreases s.len(),
{
    if s.len() == 0 {
        0
    } else {
        number_spelled(s.drop_last()) * 36 + session_alphabet().index_of(s.last()) as nat
    }
}

/// A session seen at `last_seen` still counts at `now`.
pub open spec fn is_fresh(last_seen: Timestamp, now: Timestamp, timeout: u64) -> bool {
    seconds_between(now, last_seen) <= timeout as i64
}

impl SessionsView {
    /// Every session carries its own id and is listed under its stream and no other, and
    /// no stream is listed without sessions.
    pub open spec fn consistent(self) -> bool {
        &&& self.sessions.dom().finite()
        &&& forall|id: Seq<char>| #[trigger]
            self.sessions.contains_key(id) ==> {
                &&& self.sessions[id].session_id == id
                &&& self.streams.contains_key(self.sessions[id].stream_key)
                &&& self.streams[self.sessions[id].stream_key].contains(id)
            }
        &&& forall|k: Seq<char>| #[trigger]
            self.streams.contains_key(k) ==> {
                &&& self.streams[k].finite()
                &&& self.streams[k] != Set::<Seq<char>>::empty()
            }
        &&& forall|k: Seq<char>, id: Seq<char>|
            self.streams.contains_key(k) && #[trigger] self.streams[k].contains(id) ==> {
                &&& self.sessions.contains_key(id)
                &&& self.sessions[id].stream_key == k
            }
    }

    /// No session has that id, and no stream lists it.
    pub open spec fn unused(self, id: Seq<char>) -> bool {
        &&& !self.sessions.contains_key(id)
        &&& forall|k: Seq<char>| !(#[trigger] self.listed(k)).contains(id)
    }

    /// Every id of eight characters is the id of a session.
    pub open spec fn crowded(self) -> bool {
        forall|id: Seq<char>| #[trigger] is_session_id(id) ==> self.sessions.contains_key(id)
    }

    /// An id that a new session may have: an unused one, where viewers are tracked. It has
    /// eight characters, unless all ids of eight characters are taken.
    pub open spec fn offers(self, id: Seq<char>) -> bool {
        &&& self.tracking ==> self.unused(id)
        &&& is_session_id(id) || (self.tracking && self.crowded() && is_longer_id(id))
    }

    /// There is a session of that id that still counts at `now`.
    pub open spec fn live(self, id: Seq<char>, now: Timestamp) -> bool {
        self.sessions.contains_key(id) && is_fresh(self.sessions[id].last_seen, now, self.timeout)
    }

    /// There is a session of that id that no longer counts at `now`.
    pub open spec fn expired(self, id: Seq<char>, now: Timestamp) -> bool {
        self.sessions.contains_key(id) && !is_fresh(self.sessions[id].last_seen, now, self.timeout)
    }

    /// The sessions listed under a stream.
    pub open spec fn listed(self, stream: Seq<char>) -> Set<Seq<char>> {
        if self.streams.contains_key(stream) {
            self.streams[stream]
        } else {
            Set::empty()
        }
    }

    /// After a viewer opened session `id` on a stream.
    pub open spec fn opened(self, id: Seq<char>, stream: Seq<char>, now: Timestamp) -> SessionsView {
        if self.tracking {
            SessionsView {
                sessions: self.sessions.insert(
                    id,
                    SessionView {
                        session_id: id,
                        stream_key: stream,
                        created_at: now,
                        last_seen: now,
                        request_count: 1,
                    },
                ),
                streams: self.streams.insert(stream, self.listed(stream).insert(id)),
                ..self
            }
        } else {
            self
        }
    }

    /// After a request of session `id`.
    pub open spec fn touched(self, id: Seq<char>, now: Timestamp) -> SessionsView {
        if self.tracking && self.sessions.contains_key(id) {
            let s = self.sessions[id];
            SessionsView {
                sessions: self.sessions.insert(
                    id,
                    SessionView {
                        last_seen: now,
                        request_count: s.request_count.wrapping_add(1),
                        ..s
                    },
                ),
                ..self
            }
        } else {
            self
        }
    }

    /// How many viewers of a stream count at `now`.
    pub open spec fn stream_viewers(self, stream: Seq<char>, now: Timestamp) -> nat {
        if self.tracking {
            self.listed(stream).filter(|id: Seq<char>| self.live(id, now)).len()
        } else {
            0
        }
    }

    /// How many viewers count at `now`.
    pub open spec fn total_viewers(self, now: Timestamp) -> nat {
        if self.tracking {
            self.sessions.dom().filter(|id: Seq<char>| self.live(id, now)).len()
        } else {
            0
        }
    }

    /// The sessions listed under a stream that an expiry at `now` leaves there.
    pub open spec fn kept(self, stream: Seq<char>, now: Timestamp) -> Set<Seq<char>> {
        self.listed(stream).filter(
            |id: Seq<char>| !(self.expired(id, now) && self.sessions[id].stream_key == stream),
        )
    }

    /// After all expired sessions went, and the streams that had no others.
    pub open spec fn swept(self, now: Timestamp) -> SessionsView {
        if self.tracking {
            SessionsView {
                sessions: self.sessions.restrict(
                    self.sessions.dom().filter(|id: Seq<char>| !self.expired(id, now)),
                ),
                streams: Map::new(
                    |k: Seq<char>|
                        self.streams.contains_key(k) && self.kept(k, now) != Set::<Seq<char>>::empty(),
                    |k: Seq<char>| self.kept(k, now),
                ),
                ..self
            }
        } else {
            self
        }
    }

    /// After a stream went, with every session listed under it.
    pub open spec fn cleared(self, stream: Seq<char>) -> SessionsView {
        if self.tracking && self.streams.contains_key(stream) {
            SessionsView {
                sessions: self.sessions.remove_keys(self.streams[stream]),
                streams: self.streams.remove(stream),
                ..self
            }
        } else {
            self
        }
    }

    /// The stream of a session that still counts at `now`.
    pub open spec fn stream_of(self, id: Seq<char>, now: Timestamp) -> Option<Seq<char>> {
        if self.tracking && self.live(id, now) {
            Some(self.sessions[id].stream_key)
        } else {
            None
        }
    }
}

pub struct SessionManager {
    // session id -> session
    sessions: Registry<ViewerSession>,
    // stream key -> ids of the sessions opened on it
    stream_sessions: Registry<Registry<()>>,
    session_timeout: u64,
    tracking_enabled: bool,
}

/// `Rng::gen_range` of the `rand` crate, on the thread's generator, picks a number
/// below `bound`; an empty range would make it panic.
#[verifier::external_body]
fn random_below(bound: usize) -> (r: usize)
    requires
        bound > 0,
    ensures
        r < bound,
{
    rand::thread_rng().gen_range(0..bound)
}

impl SessionManager {
    pub closed spec fn view(&self) -> SessionsView {
        SessionsView {
            sessions: self.sessions@.map_values(|s: ViewerSession| s@),
            streams: self.stream_sessions@.map_values(|r: Registry<()>| r@.dom()),
            timeout: self.session_timeout,
            tracking: self.tracking_enabled,
        }
    }

    pub closed spec fn wf(&self) -> bool {
        &&& self.sessions.wf()
        &&& self.stream_sessions.wf()
        &&& forall|k: Seq<char>| #[trigger]
            self.stream_sessions@.contains_key(k) ==> self.stream_sessions@[k].wf()
        &&& self@.consistent()
    }

    /// What a manager keeps is consistent, whatever has been asked of it.
    pub proof fn law_kept_sessions_are_consistent(&self)
        requires
            self.wf(),
        ensures
            self@.consistent(),
    {
    }

    /// No sessions, with the given timeout and switch.
    pub fn new(config: &ViewerConfig) -> (r: Self)
        ensures
            r.wf(),
            r@ == (SessionsView {
                sessions: Map::empty(),
                streams: Map::empty(),
                timeout: config.timeout_seconds,
                tracking: config.tracking_enabled,
            }),
    {
        let r = SessionManager {
            sessions: Registry::new(),
            stream_sessions: Registry::new(),
            session_timeout: config.timeout_seconds,
            tracking_enabled: config.tracking_enabled,
        };
        assert(r@.sessions =~= Map::<Seq<char>, SessionView>::empty());
        assert(r@.streams =~= Map::<Seq<char>, Set<Seq<char>>>::empty());
        r
    }

    /// No sessions. The variables set the timeout in seconds, which is 30 where none is
    /// set, and whether viewers are tracked, which they are unless it says otherwise.
    pub fn from_vars(timeout_seconds: Option<&str>, tracking_enabled: Option<&str>) -> (r: Self)
        ensures
            r.wf(),
            r@.sessions == Map::<Seq<char>, SessionView>::empty(),
            r@.streams == Map::<Seq<char>, Set<Seq<char>>>::empty(),
            r@.timeout == number_setting(setting(timeout_seconds), u64::MAX as nat, 30),
            r@.tracking == truth_setting(setting(tracking_enabled), true),
    {
        Self::new(
            &ViewerConfig {
                tracking_enabled: truth_or(tracking_enabled, true),
                timeout_seconds: number_or(timeout_seconds, u64::MAX, 30),
            },
        )
    }

    /// The id that a choice of eight places in the alphabet spells.
    pub fn session_id_from(places: &Vec<usize>) -> (r: String)
        requires
            places@.len() == 8,
            forall|i: int| 0 <= i < 8 ==> #[trigger] places@[i] < session_alphabet().len(),
        ensures
            is_session_id(r@),
            forall|i: int| 0 <= i < 8 ==> #[trigger] r@[i] == session_alphabet()[places@[i] as int],
    {
        let letters = crate::text::chars_of("abcdefghijklmnopqrstuvwxyz0123456789");
        let mut r: String = String::new();
        let mut i: usize = 0;
        while i < 8
            invariant
                0 <= i <= 8,
                places@.len() == 8,
                letters@ == session_alphabet(),
                forall|j: int| 0 <= j < 8 ==> #[trigger] places@[j] < session_alphabet().len(),
                r@.len() == i,
                forall|j: int| 0 <= j < i ==> #[trigger] r@[j] == session_alphabet()[places@[j] as int],
            decreases 8 - i,
        {
            r.push(letters[places[i]]);
            i = i + 1;
        }
        r
    }

    /// A new random session id.
    pub fn generate_session_id() -> (r: String)
        ensures
            is_session_id(r@),
    {
        proof {
            reveal_strlit("abcdefghijklmnopqrstuvwxyz0123456789");
        }
        let mut places: Vec<usize> = Vec::new();
        let mut i: usize = 0;
        while i < 8
            invariant
                0 <= i <= 8,
                session_alphabet().len() == 36,
                places@.len() == i,
                forall|j: int| 0 <= j < i ==> #[trigger] places@[j] < session_alphabet().len(),
            decreases 8 - i,
        {
            places.push(random_below(36));
            i = i + 1;
        }
        Self::session_id_from(&places)
    }

    /// Whether no session has that id.
    pub fn is_unused(&self, session_id: &str) -> (r: bool)
        requires
            self.wf(),
        ensures
            r == self@.unused(session_id@),
    {
        proof {
            lemma_unused(self@, session_id@);
        }
        !self.sessions.contains_key(session_id)
    }

    /// The first unused id out of those that some numbers spell.
    fn first_unused(&self, from: u64, to: u64) -> (r: Option<String>)
        requires
            self.wf(),
            to <= SESSION_IDS,
        ensures
            match r {
                Some(id) => is_session_id(id@) && self@.unused(id@),
                None => forall|n: nat|
                    from <= n < to ==> self@.sessions.contains_key(#[trigger] spelled(n, 8)),
            },
    {
        let mut n: u64 = from;
        while n < to
            invariant
                self.wf(),
                from <= n,
                from <= to ==> n <= to,
                forall|m: nat|
                    from <= m < n ==> self@.sessions.contains_key(#[trigger] spelled(m, 8)),
            decreases to - n,
        {
            let id = spell(n, 8);
            proof {
                lemma_spelled_id(n as nat);
                lemma_unused(self@, id@);
            }
            if !self.sessions.contains_key(id.as_str()) {
                return Some(id);
            }
            n = n + 1;
        }
        None
    }

    /// An unused id: the given one, or else the next that is unused, or else, where all ids
    /// are taken, a longer one.
    pub fn next_unused(&self, drawn: String) -> (r: String)
        requires
            self.wf(),
            is_session_id(drawn@),
        ensures
            self@.unused(r@),
            self@.unused(drawn@) ==> r@ == drawn@,
            is_session_id(r@) || (self@.crowded() && is_longer_id(r@)),
    {
        if self.is_unused(drawn.as_str()) {
            return drawn;
        }
        let from: u64 = number_of(drawn.as_str());
        if let Some(id) = self.first_unused(from, SESSION_IDS) {
            return id;
        }
        if let Some(id) = self.first_unused(0, from) {
            return id;
        }
        proof {
            assert forall|id: Seq<char>| #[trigger] is_session_id(id) implies self@.sessions.contains_key(
                id,
            ) by {
                lemma_number_spelled(id);
                let n = number_spelled(id);
                assert(spelled(n, 8) == id);
            }
        }
        self.lengthened(drawn)
    }

    /// An unused id that starts with the given one.
    fn lengthened(&self, id: String) -> (r: String)
        requires
            self.wf(),
            self@.crowded(),
            is_session_id(id@),
        ensures
            self@.unused(r@),
            is_longer_id(r@),
    {
        let ghost taken = self@.sessions.dom();
        let ghost mut rest: Set<Seq<char>> = taken.filter(|s: Seq<char>| s.len() > 8);
        proof {
            reveal_strlit("abcdefghijklmnopqrstuvwxyz0123456789");
            taken.lemma_len_filter(|s: Seq<char>| s.len() > 8);
        }
        let mut id: String = id;
        id.push('a');
        assert(session_alphabet()[0] == 'a');
        loop
            invariant
                self.wf(),
                taken == self@.sessions.dom(),
                is_longer_id(id@),
                session_alphabet().contains('a'),
                rest.finite(),
                rest == taken.filter(|s: Seq<char>| s.len() >= id@.len()),
            decreases rest.len(),
        {
            if self.is_unused(id.as_str()) {
                return id;
            }
            proof {
                lemma_unused(self@, id@);
                assert(rest.contains(id@));
                let fewer = taken.filter(|s: Seq<char>| s.len() >= id@.len() + 1);
                assert(fewer.subset_of(rest.remove(id@)));
                vstd::set_lib::lemma_len_subset(fewer, rest.remove(id@));
                rest = fewer;
            }
            id.push('a');
            assert(rest =~= taken.filter(|s: Seq<char>| s.len() >= id@.len()));
        }
    }

    /// A random id for a new session, which no other session has where viewers are tracked.
    pub fn offer_session_id(&self) -> (r: String)
        requires
            self.wf(),
        ensures
            self@.offers(r@),
    {
        let drawn = Self::generate_session_id();
        if self.tracking_enabled {
            self.next_unused(drawn)
        } else {
            drawn
        }
    }

    /// Opens a session now, under a random id that no other session has where viewers are
    /// tracked.
    pub fn create_session(&mut self, stream_key: &str) -> (r: String)
        requires
            old(self).wf(),
        ensures
            final(self).wf(),
            old(self)@.offers(r@),
            exists|now: Timestamp| final(self)@ == #[trigger] old(self)@.opened(r@, stream_key@, now),
    {
        let session_id = self.offer_session_id();
        let now = utc_now();
        self.open_session(stream_key, session_id.as_str(), now);
        session_id
    }

    /// Opens a session under the given id, which no other session may have where viewers
    /// are tracked.
    pub fn open_session(&mut self, stream_key: &str, session_id: &str, now: Timestamp)
        requires
            old(self).wf(),
            old(self)@.tracking ==> old(self)@.unused(session_id@),
        ensures
            final(self).wf(),
            final(self)@ == old(self)@.opened(session_id@, stream_key@, now),
    {
        if !self.tracking_enabled {
            return;
        }
        let ghost before = self@;
        let session = ViewerSession {
            session_id: session_id.to_owned(),
            stream_key: stream_key.to_owned(),
            created_at: now,
            last_seen: now,
            request_count: 1,
        };
        self.sessions.insert(session_id.to_owned(), session);
        if !self.stream_sessions.contains_key(stream_key) {
            self.stream_sessions.insert(stream_key.to_owned(), Registry::new());
        }
        let ghost listed = self.stream_sessions@[stream_key@]@.dom();
        assert(listed =~= before.listed(stream_key@));
        match self.stream_sessions.get_mut(stream_key) {
            Some(ids) => {
                ids.insert(session_id.to_owned(), ());
            },
            None => {},
        }
        assert(self.stream_sessions@[stream_key@]@.dom() =~= listed.insert(session_id@));
        assert(self@.sessions =~= before.opened(session_id@, stream_key@, now).sessions);
        assert(self@.streams =~= before.opened(session_id@, stream_key@, now).streams);
        assert(self@ == before.opened(session_id@, stream_key@, now));
        proof {
            lemma_opened_consistent(before, session_id@, stream_key@, now);
        }
    }

    /// Notes a request of a session now, and says whether there is such a session.
    pub fn update_session(&mut self, session_id: &str) -> (r: bool)
        requires
            old(self).wf(),
        ensures
            final(self).wf(),
            r == (!old(self)@.tracking || old(self)@.sessions.contains_key(session_id@)),
            exists|now: Timestamp| final(self)@ == #[trigger] old(self)@.touched(session_id@, now),
    {
        let now = utc_now();
        self.update_session_at(session_id, now)
    }

    /// Notes a request of a session, and says whether there is such a session. Where
    /// viewers are not tracked, every session passes.
    pub fn update_session_at(&mut self, session_id: &str, now: Timestamp) -> (r: bool)
        requires
            old(self).wf(),
        ensures
            final(self).wf(),
            r == (!old(self)@.tracking || old(self)@.sessions.contains_key(session_id@)),
            final(self)@ == old(self)@.touched(session_id@, now),
    {
        if !self.tracking_enabled {
            return true;
        }
        let ghost before = self@;
        let found = match self.sessions.get_mut(session_id) {
            Some(session) => {
                session.last_seen = now;
                session.request_count = session.request_count.wrapping_add(1);
                true
            },
            None => false,
        };
        proof {
            let w = before.touched(session_id@, now);
            assert(self@.sessions =~= w.sessions);
            assert(self@.streams =~= w.streams);
            assert(self@ == w);
            assert(w.sessions.dom() =~= before.sessions.dom());
            assert(w.consistent());
        }
        found
    }

    /// Whether a session last seen at `last_seen` still counts at `now`.
    fn fresh(&self, last_seen: Timestamp, now: Timestamp) -> (r: bool)
        ensures
            r == is_fresh(last_seen, now, self@.timeout),
    {
        elapsed_seconds(now, last_seen) <= self.session_timeout as i64
    }

    /// How many viewers a stream has now.
    pub fn get_stream_viewer_count(&self, stream_key: &str) -> (r: usize)
        requires
            self.wf(),
        ensures
            exists|now: Timestamp| r == #[trigger] self@.stream_viewers(stream_key@, now),
    {
        let now = utc_now();
        self.stream_viewer_count_at(stream_key, now)
    }

    /// How many viewers a stream has at `now`.
    pub fn stream_viewer_count_at(&self, stream_key: &str, now: Timestamp) -> (r: usize)
        requires
            self.wf(),
        ensures
            r == self@.stream_viewers(stream_key@, now),
    {
        if !self.tracking_enabled {
            return 0;
        }
        let ghost test = |id: Seq<char>| self@.live(id, now);
        match self.stream_sessions.get(stream_key) {
            Some(ids) => {
                let ghost order = ids.order();
                proof {
                    ids.lemma_order();
                    lemma_count(order, test);
                    assert(order.take(0) =~= Seq::<Seq<char>>::empty());
                    reveal(Seq::filter);
                }
                let mut count: usize = 0;
                let mut i: usize = 0;
                while i < ids.len()
                    invariant
                        self.wf(),
                        test == (|id: Seq<char>| self@.live(id, now)),
                        order == ids.order(),
                        0 <= i <= order.len(),
                        count <= i,
                        count == order.take(i as int).filter(test).len(),
                    decreases order.len() - i,
                {
                    let id = ids.key_at(i);
                    proof {
                        reveal(Seq::filter);
                        assert(order.take(i + 1).drop_last() =~= order.take(i as int));
                        assert(order.take(i + 1).last() == id@);
                    }
                    let counts = match self.sessions.get(id.as_str()) {
                        Some(session) => self.fresh(session.last_seen, now),
                        None => false,
                    };
                    assert(counts == test(id@));
                    if counts {
                        count = count + 1;
                    }
                    i = i + 1;
                }
                assert(order.take(i as int) =~= order);
                assert(ids@.dom() == self@.listed(stream_key@));
                count
            },
            None => {
                assert(self@.listed(stream_key@).filter(test) =~= Set::<Seq<char>>::empty());
                0
            },
        }
    }

    /// How many viewers there are now.
    pub fn get_total_viewer_count(&self) -> (r: usize)
        requires
            self.wf(),
        ensures
            exists|now: Timestamp| r == #[trigger] self@.total_viewers(now),
    {
        let now = utc_now();
        self.total_viewer_count_at(now)
    }

    /// How many viewers there are at `now`.
    pub fn total_viewer_count_at(&self, now: Timestamp) -> (r: usize)
        requires
            self.wf(),
        ensures
            r == self@.total_viewers(now),
    {
        if !self.tracking_enabled {
            return 0;
        }
        let ghost test = |id: Seq<char>| self@.live(id, now);
        let ghost order = self.sessions.order();
        proof {
            self.sessions.lemma_order();
            lemma_count(order, test);
            assert(order.take(0) =~= Seq::<Seq<char>>::empty());
            reveal(Seq::filter);
        }
        let mut count: usize = 0;
        let mut i: usize = 0;
        while i < self.sessions.len()
            invariant
                self.wf(),
                test == (|id: Seq<char>| self@.live(id, now)),
                order == self.sessions.order(),
                0 <= i <= order.len(),
                count <= i,
                count == order.take(i as int).filter(test).len(),
            decreases order.len() - i,
        {
            proof {
                self.sessions.lemma_order();
                reveal(Seq::filter);
                assert(order.take(i + 1).drop_last() =~= order.take(i as int));
                assert(self.sessions@.contains_key(order[i as int]));
            }
            let session = self.sessions.value_at(i);
            let counts = self.fresh(session.last_seen, now);
            assert(counts == test(order[i as int]));
            if counts {
                count = count + 1;
            }
            i = i + 1;
        }
        assert(order.take(i as int) =~= order);
        assert(self@.sessions.dom() =~= order.to_set());
        count
    }

    /// The stream that a session belongs to, if it still counts now.
    pub fn validate_session(&self, session_id: &str) -> (r: Option<String>)
        requires
            self.wf(),
        ensures
            exists|now: Timestamp|
                #![trigger self@.stream_of(session_id@, now)]
                match r {
                    Some(k) => self@.stream_of(session_id@, now) == Some(k@),
                    None => self@.stream_of(session_id@, now) is None,
                },
    {
        let now = utc_now();
        self.validate_session_at(session_id, now)
    }

    /// The stream that a session belongs to, if it still counts at `now`.
    pub fn validate_session_at(&self, session_id: &str, now: Timestamp) -> (r: Option<String>)
        requires
            self.wf(),
        ensures
            match r {
                Some(k) => self@.stream_of(session_id@, now) == Some(k@),
                None => self@.stream_of(session_id@, now) is None,
            },
    {
        if !self.tracking_enabled {
            return None;
        }
        match self.sessions.get(session_id) {
            Some(session) => {
                if self.fresh(session.last_seen, now) {
                    Some(session.stream_key.clone())
                } else {
                    None
                }
            },
            None => None,
        }
    }

    /// Forgets the sessions that no longer count now, and the streams left without any.
    pub fn cleanup_expired_sessions(&mut self)
        requires
            old(self).wf(),
        ensures
            final(self).wf(),
            exists|now: Timestamp| final(self)@ == #[trigger] old(self)@.swept(now),
    {
        let now = utc_now();
        self.cleanup_expired_sessions_at(now);
    }

    /// The sessions that no longer count at `now`, each with its stream.
    fn expired_sessions(&self, now: Timestamp) -> (r: Vec<(String, String)>)
        requires
            self.wf(),
        ensures
            forall|j: int|
                0 <= j < r@.len() ==> self@.expired((#[trigger] r@[j]).0@, now)
                    && self@.sessions[r@[j].0@].stream_key == r@[j].1@,
            forall|id: Seq<char>| #[trigger]
                self@.expired(id, now) ==> exists|j: int|
                    0 <= j < r@.len() && (#[trigger] r@[j]).0@ == id,
    {
        proof {
            self.sessions.lemma_order();
        }
        let ghost order = self.sessions.order();
        let mut out: Vec<(String, String)> = Vec::new();
        let mut i: usize = 0;
        while i < self.sessions.len()
            invariant
                self.wf(),
                order == self.sessions.order(),
                0 <= i <= order.len(),
                forall|j: int|
                    0 <= j < out@.len() ==> self@.expired((#[trigger] out@[j]).0@, now)
                        && self@.sessions[out@[j].0@].stream_key == out@[j].1@,
                forall|m: int|
                    0 <= m < i && self@.expired(#[trigger] order[m], now) ==> exists|j: int|
                        0 <= j < out@.len() && (#[trigger] out@[j]).0@ == order[m],
            decreases order.len() - i,
        {
            proof {
                self.sessions.lemma_order();
                assert(self.sessions@.contains_key(order[i as int]));
            }
            let id = self.sessions.key_at(i);
            let session = self.sessions.value_at(i);
            let ghost so_far = out@;
            if !self.fresh(session.last_seen, now) {
                out.push((id.clone(), session.stream_key.clone()));
                assert(out@[so_far.len() as int].0@ == order[i as int]);
            }
            assert forall|m: int| 0 <= m < i + 1 && self@.expired(#[trigger] order[m], now) implies exists|
                j: int,
            | 0 <= j < out@.len() && (#[trigger] out@[j]).0@ == order[m] by {
                if m < i {
                    let j = choose|j: int| 0 <= j < so_far.len() && (#[trigger] so_far[j]).0@ == order[m];
                    assert(out@[j] == so_far[j]);
                }
            }
            i = i + 1;
        }
        assert forall|id: Seq<char>| #[trigger] self@.expired(id, now) implies exists|j: int|
            0 <= j < out@.len() && (#[trigger] out@[j]).0@ == id by {
            assert(order.contains(id));
            let m = order.index_of(id);
            assert(order[m] == id);
        }
        out
    }

    /// Takes the streams out that no session is listed under.
    fn drop_empty_streams(&mut self)
        requires
            old(self).sessions.wf(),
            old(self).stream_sessions.wf(),
            forall|k: Seq<char>| #[trigger]
                old(self).stream_sessions@.contains_key(k) ==> old(self).stream_sessions@[k].wf(),
        ensures
            final(self).sessions == old(self).sessions,
            final(self).session_timeout == old(self).session_timeout,
            final(self).tracking_enabled == old(self).tracking_enabled,
            final(self).stream_sessions.wf(),
            final(self).stream_sessions@ == old(self).stream_sessions@.restrict(
                old(self).stream_sessions@.dom().filter(
                    |k: Seq<char>| old(self).stream_sessions@[k]@.dom() != Set::<Seq<char>>::empty(),
                ),
            ),
    {
        let ghost before = self.stream_sessions@;
        proof {
            self.stream_sessions.lemma_order();
        }
        let keys = self.stream_sessions.keys();
        let ghost order = self.stream_sessions.order();
        let mut i: usize = 0;
        while i < keys.len()
            invariant
                self.sessions == old(self).sessions,
                self.session_timeout == old(self).session_timeout,
                self.tracking_enabled == old(self).tracking_enabled,
                self.stream_sessions.wf(),
                before == old(self).stream_sessions@,
                before.dom() == order.to_set(),
                order.no_duplicates(),
                texts(keys@) == order,
                0 <= i <= order.len(),
                forall|k: Seq<char>| #[trigger] before.contains_key(k) ==> before[k].wf(),
                forall|k: Seq<char>| #[trigger]
                    self.stream_sessions@.contains_key(k) <==> {
                        &&& before.contains_key(k)
                        &&& before[k]@.dom() == Set::<Seq<char>>::empty() ==> !order.take(
                            i as int,
                        ).contains(k)
                    },
                forall|k: Seq<char>| #[trigger]
                    self.stream_sessions@.contains_key(k) ==> self.stream_sessions@[k] == before[k],
            decreases order.len() - i,
        {
            let ghost k = order[i as int];
            assert(keys@[i as int]@ == k);
            assert(order.take(i + 1) =~= order.take(i as int).push(k));
            assert forall|q: Seq<char>|
                order.take(i + 1).contains(q) <==> order.take(i as int).contains(q) || q == k by {
                if order.take(i as int).contains(q) {
                    let m = order.take(i as int).index_of(q);
                    assert(order.take(i + 1)[m] == q);
                }
                assert(order.take(i + 1)[i as int] == k);
            }
            assert(!order.take(i as int).contains(k)) by {
                if order.take(i as int).contains(k) {
                    let m = order.take(i as int).index_of(k);
                    assert(order[m] == order[i as int]);
                }
            }
            assert(order.to_set().contains(k));
            let empty = match self.stream_sessions.get(keys[i].as_str()) {
                Some(ids) => {
                    proof {
                        ids.lemma_order();
                        if ids@.dom().len() == 0 {
                            assert(ids@.dom() =~= Set::<Seq<char>>::empty());
                        }
                    }
                    ids.len() == 0
                },
                None => false,
            };
            assert(empty == (before[k]@.dom() == Set::<Seq<char>>::empty()));
            if empty {
                self.stream_sessions.remove(keys[i].as_str());
            }
            i = i + 1;
        }
        assert(order.take(order.len() as int) =~= order);
        assert(self.stream_sessions@ =~= before.restrict(
            before.dom().filter(|k: Seq<char>| before[k]@.dom() != Set::<Seq<char>>::empty()),
        ));
    }

    /// Forgets the sessions that no longer count at `now`, and the streams left without
    /// any.
    pub fn cleanup_expired_sessions_at(&mut self, now: Timestamp)
        requires
            old(self).wf(),
        ensures
            final(self).wf(),
            final(self)@ == old(self)@.swept(now),
    {
        if !self.tracking_enabled {
            return;
        }
        let ghost v = self@;
        let ghost streams = self.stream_sessions@;
        let expired = self.expired_sessions(now);
        let ghost gone = |n: int, id: Seq<char>| exists|j: int| 0 <= j < n && (#[trigger] expired@[j]).0@ == id;
        let mut i: usize = 0;
        while i < expired.len()
            invariant
                self.sessions.wf(),
                self.stream_sessions.wf(),
                self.session_timeout == v.timeout,
                self.tracking_enabled == v.tracking,
                v == old(self)@,
                v.consistent(),
                streams == old(self).stream_sessions@,
                v.streams == streams.map_values(|r: Registry<()>| r@.dom()),
                v.sessions == old(self).sessions@.map_values(|s: ViewerSession| s@),
                0 <= i <= expired@.len(),
                gone == (|n: int, id: Seq<char>|
                    exists|j: int| 0 <= j < n && (#[trigger] expired@[j]).0@ == id),
                forall|j: int|
                    0 <= j < expired@.len() ==> v.expired((#[trigger] expired@[j]).0@, now)
                        && v.sessions[expired@[j].0@].stream_key == expired@[j].1@,
                forall|id: Seq<char>| #[trigger]
                    self.sessions@.contains_key(id) <==> v.sessions.contains_key(id) && !gone(i as int, id),
                forall|id: Seq<char>| #[trigger]
                    self.sessions@.contains_key(id) ==> self.sessions@[id]@ == v.sessions[id],
                forall|k: Seq<char>| #[trigger]
                    self.stream_sessions@.contains_key(k) <==> v.streams.contains_key(k),
                forall|k: Seq<char>| #[trigger]
                    self.stream_sessions@.contains_key(k) ==> self.stream_sessions@[k].wf(),
                forall|k: Seq<char>, id: Seq<char>|
                    v.streams.contains_key(k) ==> (#[trigger] self.stream_sessions@[k]@.contains_key(id)
                        <==> v.streams[k].contains(id) && !(gone(i as int, id)
                        && v.sessions[id].stream_key == k)),
            decreases expired@.len() - i,
        {
            let ghost id0 = expired@[i as int].0@;
            let ghost key0 = expired@[i as int].1@;
            let ghost sessions_before = self.sessions@;
            let ghost streams_before = self.stream_sessions@;
            assert forall|id: Seq<char>| #[trigger] gone(i + 1, id) <==> gone(i as int, id) || id == id0 by {
                if gone(i as int, id) {
                    let j = choose|j: int| 0 <= j < i && (#[trigger] expired@[j]).0@ == id;
                    assert(0 <= j < i + 1 && expired@[j].0@ == id);
                }
                if id == id0 {
                    assert(0 <= i < i + 1 && expired@[i as int].0@ == id);
                }
            }
            assert(v.expired(id0, now));
            self.sessions.remove(expired[i].0.as_str());
            match self.stream_sessions.get_mut(expired[i].1.as_str()) {
                Some(ids) => {
                    ids.remove(expired[i].0.as_str());
                },
                None => {},
            }
            assert(self.stream_sessions@[key0]@ == streams_before[key0]@.remove(id0));
            assert forall|k: Seq<char>, id: Seq<char>| v.streams.contains_key(k) implies (
            #[trigger] self.stream_sessions@[k]@.contains_key(id) <==> v.streams[k].contains(id) && !(gone(
                i + 1,
                id,
            ) && v.sessions[id].stream_key == k)) by {
                if k != key0 {
                    assert(self.stream_sessions@[k] == streams_before[k]);
                }
                assert(streams_before[k]@.contains_key(id) <==> v.streams[k].contains(id) && !(gone(
                    i as int,
                    id,
                ) && v.sessions[id].stream_key == k));
            }
            i = i + 1;
        }
        let ghost n = expired@.len() as int;
        assert forall|id: Seq<char>| #[trigger] v.expired(id, now) <==> gone(n, id) by {
            if gone(n, id) {
                let j = choose|j: int| 0 <= j < n && (#[trigger] expired@[j]).0@ == id;
                assert(v.expired(expired@[j].0@, now));
            }
        }
        let ghost pruned = self.stream_sessions@;
        assert forall|k: Seq<char>| v.streams.contains_key(k) implies #[trigger] pruned[k]@.dom() == v.kept(
            k,
            now,
        ) by {
            assert forall|id: Seq<char>| pruned[k]@.dom().contains(id) <==> v.kept(k, now).contains(id) by {
                assert(pruned[k]@.contains_key(id) <==> v.streams[k].contains(id) && !(gone(n, id)
                    && v.sessions[id].stream_key == k));
                assert(gone(n, id) == v.expired(id, now));
            }
            assert(pruned[k]@.dom() =~= v.kept(k, now));
        }
        self.drop_empty_streams();
        proof {
            let w = v.swept(now);
            assert forall|id: Seq<char>| self@.sessions.contains_key(id) <==> w.sessions.contains_key(id) by {
                assert(gone(n, id) == v.expired(id, now));
            }
            assert(self@.sessions =~= w.sessions);
            assert forall|k: Seq<char>| #[trigger] self@.streams.contains_key(k) <==> w.streams.contains_key(k) by {
                if v.streams.contains_key(k) {
                    assert(pruned[k]@.dom() == v.kept(k, now));
                }
            }
            assert forall|k: Seq<char>| #[trigger] self@.streams.contains_key(k) implies self@.streams[k]
                == w.streams[k] by {
                assert(pruned[k]@.dom() == v.kept(k, now));
            }
            assert(self@.streams =~= w.streams);
            assert(self@ == w);
            lemma_swept_consistent(v, now);
        }
    }

    /// Forgets a stream and the sessions listed under it.
    pub fn clear_stream_sessions(&mut self, stream_key: &str)
        requires
            old(self).wf(),
        ensures
            final(self).wf(),
            final(self)@ == old(self)@.cleared(stream_key@),
    {
        if !self.tracking_enabled {
            return;
        }
        let ghost v = self@;
        match self.stream_sessions.remove(stream_key) {
            Some(ids) => {
                proof {
                    ids.lemma_order();
                }
                let ghost order = ids.order();
                let mut i: usize = 0;
                while i < ids.len()
                    invariant
                        self.sessions.wf(),
                        self.stream_sessions.wf(),
                        self.stream_sessions@ == old(self).stream_sessions@.remove(stream_key@),
                        self.session_timeout == v.timeout,
                        self.tracking_enabled == v.tracking,
                        order == ids.order(),
                        0 <= i <= order.len(),
                        v.sessions == old(self).sessions@.map_values(|s: ViewerSession| s@),
                        forall|id: Seq<char>| #[trigger]
                            self.sessions@.contains_key(id) <==> v.sessions.contains_key(id)
                                && !order.take(i as int).contains(id),
                        forall|id: Seq<char>| #[trigger]
                            self.sessions@.contains_key(id) ==> self.sessions@[id]@ == v.sessions[id],
                    decreases order.len() - i,
                {
                    assert forall|q: Seq<char>|
                        order.take(i + 1).contains(q) <==> order.take(i as int).contains(q) || q
                            == order[i as int] by {
                        if order.take(i as int).contains(q) {
                            let m = order.take(i as int).index_of(q);
                            assert(order.take(i + 1)[m] == q);
                        }
                        if order.take(i + 1).contains(q) {
                            let m = order.take(i + 1).index_of(q);
                            if m < i {
                                assert(order.take(i as int)[m] == q);
                            }
                        }
                        assert(order.take(i + 1)[i as int] == order[i as int]);
                    }
                    self.sessions.remove(ids.key_at(i).as_str());
                    i = i + 1;
                }
                assert(order.take(i as int) =~= order);
                proof {
                    let w = v.cleared(stream_key@);
                    assert(v.streams[stream_key@] == order.to_set());
                    assert(self@.sessions =~= w.sessions);
                    assert(self@.streams =~= w.streams);
                    assert(self@ == w);
                    lemma_cleared_consistent(v, stream_key@);
                }
            },
            None => {
                assert(self@ == v);
            },
        }
    }
}

/// The id that a number spells.
fn spell(n: u64, len: u64) -> (r: String)
    ensures
        r@ == spelled(n as nat, len as nat),
    decreases len,
{
    proof {
        reveal_strlit("abcdefghijklmnopqrstuvwxyz0123456789");
    }
    if len == 0 {
        String::new()
    } else {
        let letters = crate::text::chars_of("abcdefghijklmnopqrstuvwxyz0123456789");
        let mut r: String = spell(n / 36, len - 1);
        r.push(letters[(n % 36) as usize]);
        r
    }
}

/// The number that an id spells.
fn number_of(id: &str) -> (r: u64)
    requires
        is_session_id(id@),
    ensures
        r == number_spelled(id@),
        r < SESSION_IDS,
{
    let chars = crate::text::chars_of(id);
    let letters = crate::text::chars_of("abcdefghijklmnopqrstuvwxyz0123456789");
    proof {
        reveal_strlit("abcdefghijklmnopqrstuvwxyz0123456789");
        lemma_number_spelled(id@);
    }
    let mut r: u64 = 0;
    let mut i: usize = 0;
    assert(id@.take(0) =~= Seq::<char>::empty());
    while i < 8
        invariant
            0 <= i <= 8,
            is_session_id(id@),
            chars@ == id@,
            letters@ == session_alphabet(),
            session_alphabet().len() == 36,
            r == number_spelled(id@.take(i as int)),
        decreases 8 - i,
    {
        let mut place: usize = 0;
        while place < 36 && letters[place] != chars[i]
            invariant
                0 <= place <= 36,
                i < 8,
                chars@.len() == 8,
                letters@ == session_alphabet(),
                session_alphabet().len() == 36,
                forall|j: int| 0 <= j < place ==> letters@[j] != chars@[i as int],
            decreases 36 - place,
        {
            place = place + 1;
        }
        proof {
            let c = id@[i as int];
            assert(session_alphabet().contains(c));
            let at = session_alphabet().index_of(c);
            assert(session_alphabet()[at] == c);
            lemma_letters_differ(place as int, at);
            assert(id@.take(i + 1).drop_last() =~= id@.take(i as int));
            lemma_number_bound(id@.take(i as int));
            assert(pow(36, i as nat) <= pow(36, 7)) by {
                lemma_pow_increases(36, i as nat, 7);
            }
            assert(pow(36, 7) == 78_364_164_096) by {
                reveal_with_fuel(pow, 8);
            }
        }
        r = r * 36 + place as u64;
        i = i + 1;
    }
    assert(id@.take(8) =~= id@);
    r
}

/// No two places of the alphabet hold one character.
proof fn lemma_letters_differ(i: int, j: int)
    requires
        0 <= i < 36,
        0 <= j < 36,
        session_alphabet()[i] == session_alphabet()[j],
    ensures
        i == j,
{
    reveal_strlit("abcdefghijklmnopqrstuvwxyz0123456789");
}

/// A text of the alphabet spells a number with as many digits.
proof fn lemma_number_bound(s: Seq<char>)
    requires
        forall|i: int| 0 <= i < s.len() ==> session_alphabet().contains(#[trigger] s[i]),
    ensures
        number_spelled(s) < pow(36, s.len()),
        spelled(number_spelled(s), s.len()) == s,
    decreases s.len(),
{
    reveal_strlit("abcdefghijklmnopqrstuvwxyz0123456789");
    reveal(pow);
    if s.len() > 0 {
        let front = s.drop_last();
        lemma_number_bound(front);
        assert(session_alphabet().contains(s[s.len() - 1]));
        let at = session_alphabet().index_of(s.last());
        assert(0 <= at < 36 && session_alphabet()[at] == s.last());
        let n = number_spelled(front);
        assert(number_spelled(s) == n * 36 + at);
        assert((n * 36 + at) / 36 == n && (n * 36 + at) % 36 == at);
        assert(pow(36, s.len()) == 36 * pow(36, front.len()));
        assert(spelled(number_spelled(s), s.len()) =~= s);
    }
}

/// Each id of eight characters is spelled by a number.
proof fn lemma_number_spelled(id: Seq<char>)
    requires
        is_session_id(id),
    ensures
        number_spelled(id) < SESSION_IDS,
        spelled(number_spelled(id), 8) == id,
{
    lemma_number_bound(id);
    assert(pow(36, 8) == 2_821_109_907_456) by {
        reveal_with_fuel(pow, 9);
    }
}

/// What a number spells consists of letters of the alphabet.
proof fn lemma_spelled_letters(n: nat, len: nat)
    ensures
        spelled(n, len).len() == len,
        forall|i: int| 0 <= i < len ==> session_alphabet().contains(#[trigger] spelled(n, len)[i]),
    decreases len,
{
    reveal_strlit("abcdefghijklmnopqrstuvwxyz0123456789");
    if len > 0 {
        lemma_spelled_letters(n / 36, (len - 1) as nat);
        assert(session_alphabet()[(n % 36) as int] == spelled(n, len).last());
    }
}

proof fn lemma_spelled_id(n: nat)
    ensures
        is_session_id(spelled(n, 8)),
{
    lemma_spelled_letters(n, 8);
}

/// No stream lists an id that no session has.
proof fn lemma_unused(v: SessionsView, id: Seq<char>)
    requires
        v.consistent(),
    ensures
        v.unused(id) <==> !v.sessions.contains_key(id),
{
    if !v.sessions.contains_key(id) {
        assert forall|k: Seq<char>| !(#[trigger] v.listed(k)).contains(id) by {
            if v.listed(k).contains(id) {
                assert(v.streams[k].contains(id));
            }
        }
    }
}

proof fn lemma_opened_consistent(v: SessionsView, id: Seq<char>, stream: Seq<char>, now: Timestamp)
    requires
        v.consistent(),
        v.tracking ==> v.unused(id),
    ensures
        v.opened(id, stream, now).consistent(),
{
    let w = v.opened(id, stream, now);
    assert(v.listed(stream).insert(id).contains(id));
}

proof fn lemma_swept_consistent(v: SessionsView, now: Timestamp)
    requires
        v.consistent(),
    ensures
        v.swept(now).consistent(),
{
    let w = v.swept(now);
    if v.tracking {
        assert forall|id: Seq<char>| #[trigger] w.sessions.contains_key(id) implies {
            &&& w.sessions[id].session_id == id
            &&& w.streams.contains_key(w.sessions[id].stream_key)
            &&& w.streams[w.sessions[id].stream_key].contains(id)
        } by {
            assert(v.sessions.contains_key(id));
            assert(v.kept(v.sessions[id].stream_key, now).contains(id));
        }
        v.sessions.dom().lemma_len_filter(|id: Seq<char>| !v.expired(id, now));
        assert(w.sessions.dom() =~= v.sessions.dom().filter(|id: Seq<char>| !v.expired(id, now)));
        assert forall|k: Seq<char>| #[trigger] w.streams.contains_key(k) implies w.streams[k].finite() by {
            v.listed(k).lemma_len_filter(
                |id: Seq<char>| !(v.expired(id, now) && v.sessions[id].stream_key == k),
            );
        }
    }
}

pub proof fn lemma_cleared_consistent(v: SessionsView, stream: Seq<char>)
    requires
        v.consistent(),
    ensures
        v.cleared(stream).consistent(),
{
    let w = v.cleared(stream);
    if v.tracking && v.streams.contains_key(stream) {
        assert(w.sessions.dom() =~= v.sessions.dom().difference(v.streams[stream]));
        assert forall|id: Seq<char>| #[trigger] w.sessions.contains_key(id) implies {
            &&& w.sessions[id].session_id == id
            &&& w.streams.contains_key(w.sessions[id].stream_key)
            &&& w.streams[w.sessions[id].stream_key].contains(id)
        } by {
            assert(v.sessions.contains_key(id));
        }
    }
}

// ---------------------------------------------------------------------------
// Laws
// ---------------------------------------------------------------------------

/// A session names its stream from the moment it is opened until the timeout has
/// passed, and not after.
pub proof fn law_opened_session_names_its_stream(
    v: SessionsView,
    id: Seq<char>,
    stream: Seq<char>,
    opened: Timestamp,
    now: Timestamp,
)
    requires
        v.tracking,
    ensures
        v.opened(id, stream, opened).stream_of(id, now) == (if seconds_between(now, opened)
            <= v.timeout as i64 {
            Some(stream)
        } else {
            None
        }),
{
}

/// A request renews a session: it names its stream until the timeout has passed again.
pub proof fn law_request_renews_session(
    v: SessionsView,
    id: Seq<char>,
    seen: Timestamp,
    now: Timestamp,
)
    requires
        v.tracking,
        v.sessions.contains_key(id),
    ensures
        v.touched(id, seen).stream_of(id, now) == (if seconds_between(now, seen)
            <= v.timeout as i64 {
            Some(v.sessions[id].stream_key)
        } else {
            None
        }),
{
}

/// A viewer who opens a session under an unused id counts as one more, for the stream
/// and in total, and leaves the count of every other stream as it was.
pub proof fn law_new_viewer_counts_once(
    v: SessionsView,
    id: Seq<char>,
    stream: Seq<char>,
    other: Seq<char>,
    now: Timestamp,
)
    requires
        v.consistent(),
        v.tracking,
        v.timeout as i64 >= 0,
        v.unused(id),
        other != stream,
    ensures
        v.opened(id, stream, now).stream_viewers(stream, now) == v.stream_viewers(stream, now) + 1,
        v.opened(id, stream, now).stream_viewers(other, now) == v.stream_viewers(other, now),
        v.opened(id, stream, now).total_viewers(now) == v.total_viewers(now) + 1,
{
    let w = v.opened(id, stream, now);
    assert(!v.listed(stream).contains(id) && !v.listed(other).contains(id));
    let before = v.listed(stream).filter(|q: Seq<char>| v.live(q, now));
    let after = w.listed(stream).filter(|q: Seq<char>| w.live(q, now));
    assert(after =~= before.insert(id));
    v.listed(stream).lemma_len_filter(|q: Seq<char>| v.live(q, now));
    assert(w.listed(other).filter(|q: Seq<char>| w.live(q, now)) =~= v.listed(other).filter(
        |q: Seq<char>| v.live(q, now),
    ));
    let all = v.sessions.dom().filter(|q: Seq<char>| v.live(q, now));
    assert(w.sessions.dom().filter(|q: Seq<char>| w.live(q, now)) =~= all.insert(id));
    v.sessions.dom().lemma_len_filter(|q: Seq<char>| v.live(q, now));
}

/// A new viewer counts, for the stream and in total, exactly until more whole seconds than
/// the timeout have passed since the session was opened; no other count depends on it.
pub proof fn law_new_viewer_counts_until_timeout(
    v: SessionsView,
    id: Seq<char>,
    stream: Seq<char>,
    other: Seq<char>,
    opened: Timestamp,
    now: Timestamp,
)
    requires
        v.consistent(),
        v.tracking,
        v.unused(id),
        other != stream,
    ensures
        ({
            let w = v.opened(id, stream, opened);
            let one: nat = if seconds_between(now, opened) <= v.timeout as i64 {
                1
            } else {
                0
            };
            &&& w.stream_viewers(stream, now) == v.stream_viewers(stream, now) + one
            &&& w.stream_viewers(other, now) == v.stream_viewers(other, now)
            &&& w.total_viewers(now) == v.total_viewers(now) + one
        }),
{
    let w = v.opened(id, stream, opened);
    let (f, g) = (|q: Seq<char>| v.live(q, now), |q: Seq<char>| w.live(q, now));
    assert(!v.listed(stream).contains(id) && !v.listed(other).contains(id));
    let before = v.listed(stream).filter(f);
    let all = v.sessions.dom().filter(f);
    v.listed(stream).lemma_len_filter(f);
    v.sessions.dom().lemma_len_filter(f);
    assert(w.listed(other).filter(g) =~= v.listed(other).filter(f));
    if seconds_between(now, opened) <= v.timeout as i64 {
        assert(w.listed(stream).filter(g) =~= before.insert(id));
        assert(w.sessions.dom().filter(g) =~= all.insert(id));
    } else {
        assert(w.listed(stream).filter(g) =~= before);
        assert(w.sessions.dom().filter(g) =~= all);
    }
}

/// After a request a viewer counts exactly until more whole seconds than the timeout have
/// passed since then, whatever was before: of two requests only the last decides.
pub proof fn law_last_request_decides(
    v: SessionsView,
    id: Seq<char>,
    seen: Timestamp,
    again: Timestamp,
    now: Timestamp,
)
    requires
        v.consistent(),
        v.tracking,
        v.sessions.contains_key(id),
    ensures
        ({
            let stream = v.sessions[id].stream_key;
            let w = v.touched(id, seen);
            let fresh = seconds_between(now, seen) <= v.timeout as i64;
            &&& fresh ==> w.stream_viewers(stream, now) >= 1 && w.total_viewers(now) >= 1
            &&& w.touched(id, again).stream_viewers(stream, now) == v.touched(id, again).stream_viewers(
                stream,
                now,
            )
            &&& w.touched(id, again).total_viewers(now) == v.touched(id, again).total_viewers(now)
            &&& v.listed(stream) == set![id] ==> w.stream_viewers(stream, now) == (if fresh {
                1nat
            } else {
                0
            })
        }),
{
    let stream = v.sessions[id].stream_key;
    let w = v.touched(id, seen);
    let g = |q: Seq<char>| w.live(q, now);
    let (x, y) = (w.touched(id, again), v.touched(id, again));
    assert(x.listed(stream).filter(|q: Seq<char>| x.live(q, now)) =~= y.listed(stream).filter(
        |q: Seq<char>| y.live(q, now),
    ));
    assert(x.sessions.dom().filter(|q: Seq<char>| x.live(q, now)) =~= y.sessions.dom().filter(
        |q: Seq<char>| y.live(q, now),
    ));
    let here = w.listed(stream).filter(g);
    let all = w.sessions.dom().filter(g);
    assert(w.sessions.dom() =~= v.sessions.dom());
    w.listed(stream).lemma_len_filter(g);
    w.sessions.dom().lemma_len_filter(g);
    if seconds_between(now, seen) <= v.timeout as i64 {
        assert(here.contains(id) && all.contains(id));
        assert(here.len() > 0) by {
            if here.len() == 0 {
                assert(here =~= Set::<Seq<char>>::empty());
            }
        }
        assert(all.len() > 0) by {
            if all.len() == 0 {
                assert(all =~= Set::<Seq<char>>::empty());
            }
        }
        if v.listed(stream) == set![id] {
            assert(here =~= Set::<Seq<char>>::empty().insert(id));
        }
    } else if v.listed(stream) == set![id] {
        assert(here =~= Set::<Seq<char>>::empty());
    }
}

/// A session keeps its stream and when it was opened; each request is counted and noted, and
/// no other session changes.
pub proof fn law_requests_are_counted(
    v: SessionsView,
    id: Seq<char>,
    stream: Seq<char>,
    other: Seq<char>,
    now: Timestamp,
)
    requires
        v.tracking,
        other != id,
    ensures
        ({
            let first = v.opened(id, stream, now).sessions[id];
            &&& first.stream_key == stream
            &&& first.created_at == now
            &&& first.last_seen == now
            &&& first.request_count == 1
        }),
        v.sessions.contains_key(id) ==> {
            let before = v.sessions[id];
            let after = v.touched(id, now).sessions[id];
            &&& after.stream_key == before.stream_key
            &&& after.created_at == before.created_at
            &&& after.last_seen == now
            &&& before.request_count < u64::MAX ==> after.request_count == before.request_count + 1
        },
        v.touched(id, now).sessions.dom() == v.sessions.dom(),
        v.touched(id, now).streams == v.streams,
        v.sessions.contains_key(other) ==> v.touched(id, now).sessions[other] == v.sessions[other],
{
    assert(v.touched(id, now).sessions.dom() =~= v.sessions.dom());
}

/// A sweep forgets exactly the sessions that have been silent for more whole seconds than
/// the timeout.
pub proof fn law_sweep_forgets_the_silent(v: SessionsView, id: Seq<char>, now: Timestamp)
    requires
        v.tracking,
    ensures
        v.swept(now).sessions.contains_key(id) <==> v.sessions.contains_key(id) && seconds_between(
            now,
            v.sessions[id].last_seen,
        ) <= v.timeout as i64,
        v.swept(now).sessions.contains_key(id) ==> v.swept(now).sessions[id] == v.sessions[id],
{
}

/// Clearing a stream forgets exactly its sessions.
pub proof fn law_clearing_spares_other_streams(
    v: SessionsView,
    stream: Seq<char>,
    id: Seq<char>,
)
    requires
        v.consistent(),
        v.tracking,
    ensures
        v.cleared(stream).sessions.contains_key(id) <==> v.sessions.contains_key(id)
            && v.sessions[id].stream_key != stream,
        v.cleared(stream).sessions.contains_key(id) ==> v.cleared(stream).sessions[id] == v.sessions[id],
{
    if v.sessions.contains_key(id) {
        assert(v.streams[v.sessions[id].stream_key].contains(id));
        if v.streams.contains_key(stream) && v.streams[stream].contains(id) {
            assert(v.sessions[id].stream_key == stream);
        }
    }
}

/// Where viewers are not tracked, nothing is kept, changed or counted.
pub proof fn law_untracked_viewers_leave_no_trace(
    v: SessionsView,
    id: Seq<char>,
    stream: Seq<char>,
    now: Timestamp,
)
    requires
        !v.tracking,
    ensures
        v.opened(id, stream, now) == v,
        v.touched(id, now) == v,
        v.swept(now) == v,
        v.cleared(stream) == v,
        v.stream_of(id, now) is None,
        v.stream_viewers(stream, now) == 0,
        v.total_viewers(now) == 0,
{
}

/// Each player has a session of its own: where viewers are tracked, the id that is offered
/// to a new one is the id of no other session, and every other session stays as it was.
pub proof fn law_new_session_is_unique(
    v: SessionsView,
    id: Seq<char>,
    stream: Seq<char>,
    other: Seq<char>,
    now: Timestamp,
)
    requires
        v.tracking,
        v.offers(id),
        v.sessions.contains_key(other),
    ensures
        id != other,
        v.opened(id, stream, now).sessions.contains_key(other),
        v.opened(id, stream, now).sessions[other] == v.sessions[other],
        v.opened(id, stream, now).sessions.dom() == v.sessions.dom().insert(id),
{
    assert(v.opened(id, stream, now).sessions.dom() =~= v.sessions.dom().insert(id));
}

impl SessionsView {
    /// How many viewers of some streams count at `now`, stream by stream.
    pub open spec fn viewers_over(self, streams: Seq<Seq<char>>, now: Timestamp) -> nat
        decreases streams.len(),
    {
        if streams.len() == 0 {
            0
        } else {
            self.viewers_over(streams.drop_last(), now) + self.stream_viewers(streams.last(), now)
        }
    }

    /// The sessions on some streams that count at `now`.
    spec fn live_on(self, streams: Seq<Seq<char>>, now: Timestamp) -> Set<Seq<char>> {
        self.sessions.dom().filter(
            |id: Seq<char>| self.live(id, now) && streams.contains(self.sessions[id].stream_key),
        )
    }
}

proof fn lemma_viewers_over(v: SessionsView, streams: Seq<Seq<char>>, now: Timestamp)
    requires
        v.consistent(),
        v.tracking,
        streams.no_duplicates(),
    ensures
        v.live_on(streams, now).finite(),
        v.live_on(streams, now).len() == v.viewers_over(streams, now),
    decreases streams.len(),
{
    let test = |id: Seq<char>| v.live(id, now) && streams.contains(v.sessions[id].stream_key);
    v.sessions.dom().lemma_len_filter(test);
    if streams.len() == 0 {
        assert(v.live_on(streams, now) =~= Set::<Seq<char>>::empty());
    } else {
        let front = streams.drop_last();
        let key = streams.last();
        let live = |id: Seq<char>| v.live(id, now);
        let here = v.listed(key).filter(live);
        lemma_viewers_over(v, front, now);
        v.listed(key).lemma_len_filter(live);
        assert forall|k: Seq<char>| streams.contains(k) <==> front.contains(k) || k == key by {
            if front.contains(k) {
                assert(streams[front.index_of(k)] == k);
            }
            if streams.contains(k) {
                let i = streams.index_of(k);
                if i < front.len() {
                    assert(front[i] == k);
                }
            }
            assert(streams[streams.len() - 1] == key);
        }
        assert(!front.contains(key)) by {
            if front.contains(key) {
                assert(streams[front.index_of(key)] == streams[streams.len() - 1]);
            }
        }
        assert forall|id: Seq<char>|
            v.live_on(streams, now).contains(id) <==> v.live_on(front, now).contains(id)
                || here.contains(id) by {
            if v.sessions.contains_key(id) {
                assert(v.listed(v.sessions[id].stream_key).contains(id));
            }
            if here.contains(id) {
                assert(v.streams[key].contains(id));
            }
        }
        assert(v.live_on(streams, now) =~= v.live_on(front, now).union(here));
        assert(v.live_on(front, now).disjoint(here)) by {
            assert forall|id: Seq<char>| here.contains(id) implies !v.live_on(front, now).contains(id) by {
                assert(v.streams[key].contains(id));
            }
        }
        vstd::set_lib::lemma_set_disjoint_lens(v.live_on(front, now), here);
    }
}

/// The total count is the sum of the counts of all streams.
pub proof fn law_total_is_sum_over_streams(
    v: SessionsView,
    streams: Seq<Seq<char>>,
    now: Timestamp,
)
    requires
        v.consistent(),
        streams.no_duplicates(),
        forall|k: Seq<char>| #[trigger] v.streams.contains_key(k) ==> streams.contains(k),
    ensures
        v.total_viewers(now) == v.viewers_over(streams, now),
        !v.tracking ==> v.total_viewers(now) == 0 && forall|k: Seq<char>| #[trigger]
            v.stream_viewers(k, now) == 0,
{
    if v.tracking {
        lemma_viewers_over(v, streams, now);
        let live = |id: Seq<char>| v.live(id, now);
        assert forall|id: Seq<char>| v.live(id, now) implies v.live_on(streams, now).contains(id) by {
            assert(v.streams.contains_key(v.sessions[id].stream_key));
        }
        assert(v.sessions.dom().filter(live) =~= v.live_on(streams, now));
    } else {
        lemma_untracked_viewers_over(v, streams, now);
    }
}

proof fn lemma_untracked_viewers_over(v: SessionsView, streams: Seq<Seq<char>>, now: Timestamp)
    requires
        !v.tracking,
    ensures
        v.viewers_over(streams, now) == 0,
    decreases streams.len(),
{
    if streams.len() > 0 {
        lemma_untracked_viewers_over(v, streams.drop_last(), now);
    }
}

/// Forgetting expired sessions changes no viewer count at that moment.
pub proof fn law_sweep_keeps_counts(v: SessionsView, stream: Seq<char>, now: Timestamp)
    ensures
        v.swept(now).stream_viewers(stream, now) == v.stream_viewers(stream, now),
        v.swept(now).total_viewers(now) == v.total_viewers(now),
{
    let w = v.swept(now);
    if v.tracking {
        assert(w.listed(stream).filter(|q: Seq<char>| w.live(q, now)) =~= v.listed(stream).filter(
            |q: Seq<char>| v.live(q, now),
        )) by {
            assert forall|q: Seq<char>|
                v.listed(stream).contains(q) && v.live(q, now) implies w.listed(stream).contains(q) by {
                assert(v.kept(stream, now).contains(q));
            }
        }
        assert(w.sessions.dom().filter(|q: Seq<char>| w.live(q, now)) =~= v.sessions.dom().filter(
            |q: Seq<char>| v.live(q, now),
        ));
    }
}

/// Where viewers are tracked, forgetting expired sessions leaves exactly those that
/// count at that moment, as they were.
pub proof fn law_sweep_leaves_live_sessions(v: SessionsView, id: Seq<char>, now: Timestamp)
    requires
        v.tracking,
    ensures
        v.swept(now).sessions.contains_key(id) <==> v.live(id, now),
        v.live(id, now) ==> v.swept(now).sessions[id] == v.sessions[id],
{
}

/// Forgetting expired sessions twice is the same as doing it once.
pub proof fn law_sweep_is_idempotent(v: SessionsView, now: Timestamp)
    requires
        v.consistent(),
    ensures
        v.swept(now).swept(now) == v.swept(now),
{
    let w = v.swept(now);
    if v.tracking {
        assert(w.swept(now).sessions =~= w.sessions);
        assert forall|k: Seq<char>| #[trigger] w.streams.contains_key(k) implies w.kept(k, now)
            =~= w.streams[k] by {}
        assert(w.swept(now).streams =~= w.streams);
    }
}

/// Once a stream was cleared, it has no viewers and no session names it.
pub proof fn law_cleared_stream_has_no_viewers(
    v: SessionsView,
    stream: Seq<char>,
    id: Seq<char>,
    now: Timestamp,
)
    requires
        v.consistent(),
    ensures
        v.cleared(stream).stream_viewers(stream, now) == 0,
        v.cleared(stream).stream_of(id, now) != Some(stream),
{
    let w = v.cleared(stream);
    if v.tracking {
        assert(w.listed(stream).filter(|q: Seq<char>| w.live(q, now)) =~= Set::<Seq<char>>::empty());
        if v.sessions.contains_key(id) && v.sessions[id].stream_key == stream {
            assert(v.streams[stream].contains(id));
        }
    }
}

/// A viewer who counts in total counts for the stream of the session.
pub proof fn law_live_session_counts_for_its_stream(
    v: SessionsView,
    id: Seq<char>,
    stream: Seq<char>,
    now: Timestamp,
)
    requires
        v.consistent(),
        v.stream_of(id, now) == Some(stream),
    ensures
        v.stream_viewers(stream, now) > 0,
        v.total_viewers(now) > 0,
{
    let here = v.listed(stream).filter(|q: Seq<char>| v.live(q, now));
    assert(here.contains(id));
    v.listed(stream).lemma_len_filter(|q: Seq<char>| v.live(q, now));
    let all = v.sessions.dom().filter(|q: Seq<char>| v.live(q, now));
    assert(all.contains(id));
    v.sessions.dom().lemma_len_filter(|q: Seq<char>| v.live(q, now));
    assert(here.len() != 0) by {
        if here.len() == 0 {
            assert(here =~= Set::<Seq<char>>::empty());
        }
    }
    assert(all.len() != 0) by {
        if all.len() == 0 {
            assert(all =~= Set::<Seq<char>>::empty());
        }
    }
}

/// The viewers of a stream are its sessions that were last seen at most as many whole seconds
/// ago as the timeout; the viewers in total are all such sessions.
pub proof fn law_viewers_were_seen_in_time(v: SessionsView, stream: Seq<char>, now: Timestamp)
    requires
        v.consistent(),
        v.tracking,
    ensures
        v.stream_viewers(stream, now) == v.sessions.dom().filter(
            |id: Seq<char>|
                v.sessions[id].stream_key == stream && seconds_between(now, v.sessions[id].last_seen)
                    <= v.timeout as i64,
        ).len(),
        v.total_viewers(now) == v.sessions.dom().filter(
            |id: Seq<char>| seconds_between(now, v.sessions[id].last_seen) <= v.timeout as i64,
        ).len(),
{
    let here = v.listed(stream).filter(|id: Seq<char>| v.live(id, now));
    let seen_here = v.sessions.dom().filter(
        |id: Seq<char>|
            v.sessions[id].stream_key == stream && seconds_between(now, v.sessions[id].last_seen)
                <= v.timeout as i64,
    );
    assert forall|id: Seq<char>| here.contains(id) <==> seen_here.contains(id) by {
        if here.contains(id) {
            assert(v.streams[stream].contains(id));
        }
    }
    assert(here =~= seen_here);
    assert(v.sessions.dom().filter(|id: Seq<char>| v.live(id, now)) =~= v.sessions.dom().filter(
        |id: Seq<char>| seconds_between(now, v.sessions[id].last_seen) <= v.timeout as i64,
    ));
}

/// A session names its stream exactly while it is known and was last seen at most as many
/// whole seconds ago as the timeout.
pub proof fn law_session_names_stream_while_seen(v: SessionsView, id: Seq<char>, now: Timestamp)
    requires
        v.tracking,
    ensures
        ({
            let counts = v.sessions.contains_key(id) && seconds_between(now, v.sessions[id].last_seen)
                <= v.timeout as i64;
            &&& counts ==> v.stream_of(id, now) == Some(v.sessions[id].stream_key)
            &&& !counts ==> v.stream_of(id, now) is None
        }),
{
}

proof fn lemma_alphabet(c: char)
    ensures
        session_alphabet().contains(c) <==> 'a' <= c <= 'z' || '0' <= c <= '9',
{
    reveal_strlit("abcdefghijklmnopqrstuvwxyz0123456789");
    let s = session_alphabet();
    assert(s[0] == 'a' && s[1] == 'b' && s[2] == 'c' && s[3] == 'd' && s[4] == 'e' && s[5] == 'f');
    assert(s[6] == 'g' && s[7] == 'h' && s[8] == 'i' && s[9] == 'j' && s[10] == 'k' && s[11] == 'l');
    assert(s[12] == 'm' && s[13] == 'n' && s[14] == 'o' && s[15] == 'p' && s[16] == 'q' && s[17] == 'r');
    assert(s[18] == 's' && s[19] == 't' && s[20] == 'u' && s[21] == 'v' && s[22] == 'w' && s[23] == 'x');
    assert(s[24] == 'y' && s[25] == 'z' && s[26] == '0' && s[27] == '1' && s[28] == '2' && s[29] == '3');
    assert(s[30] == '4' && s[31] == '5' && s[32] == '6' && s[33] == '7' && s[34] == '8' && s[35] == '9');
    if 'a' <= c <= 'z' {
        let i = c as int - 'a' as int;
        assert(s[i] == c);
    }
    if '0' <= c <= '9' {
        let i = 26 + c as int - '0' as int;
        assert(s[i] == c);
    }
}

/// An id that is offered is made of small letters and digits, eight of them unless all such
/// ids are taken, and where viewers are tracked no session has it.
pub proof fn law_offered_id_is_plain(v: SessionsView, id: Seq<char>, i: int)
    requires
        v.offers(id),
        0 <= i < id.len(),
    ensures
        id.len() >= 8,
        'a' <= id[i] <= 'z' || '0' <= id[i] <= '9',
        v.tracking ==> !v.sessions.contains_key(id),
        id.len() > 8 ==> forall|taken: Seq<char>|
            taken.len() == 8 && (forall|j: int|
                0 <= j < 8 ==> 'a' <= #[trigger] taken[j] <= 'z' || '0' <= taken[j] <= '9')
                ==> #[trigger] v.sessions.contains_key(taken),
{
    lemma_alphabet(id[i]);
    if id.len() > 8 {
        assert forall|taken: Seq<char>|
            taken.len() == 8 && (forall|j: int|
                0 <= j < 8 ==> 'a' <= #[trigger] taken[j] <= 'z' || '0' <= taken[j] <= '9') implies
            #[trigger] v.sessions.contains_key(taken) by {
            assert forall|j: int| 0 <= j < 8 implies session_alphabet().contains(#[trigger] taken[j]) by {
                lemma_alphabet(taken[j]);
            }
            assert(is_session_id(taken));
        }
    }
}

} // verus!
