//! A load test: many viewers who play streams as players would.
use vstd::prelude::*;

pub mod client;
pub mod metrics;

verus! {

/// When viewers come and go.
#[derive(Debug, Clone, Copy, PartialEq, Eq)]
pub enum PlaybackBehavior {
    /// Viewers join and stay for the duration.
    Steady,
    /// Viewers join and leave at random.
    Random,
    /// Half of the viewers join at once, the others later, all together.
    Spike,
    /// Viewers join one after the other over the first third.
    Wave,
}

/// What a test of one stream is to be like. Times are in seconds.
#[derive(Debug, Clone, Copy, PartialEq)]
pub struct LoadPlan {
    pub behavior: PlaybackBehavior,
    pub viewers: usize,
    pub duration: u64,
    pub ramp_up: u64,
}

/// What one viewer does, in nanoseconds: how long it waits before it joins, how long it
/// plays, and how long to wait before the next viewer is started.
#[derive(Debug, Clone, Copy, PartialEq, Eq)]
pub struct ViewerPlan {
    pub join_delay: u128,
    pub play_duration: u128,
    pub pause_after: u128,
}

/// Seconds in nanoseconds.
pub open spec fn nanos(seconds: u64) -> int {
    seconds * 1_000_000_000
}

/// A viewer who joins at random within ten seconds and stays half a minute at least.
pub open spec fn random_viewer(duration: u64, join_draw: u64, play_draw: u64) -> ViewerPlan {
    let longest: u64 = if duration > 30 {
        duration
    } else {
        30
    };
    ViewerPlan {
        join_delay: nanos(join_draw % 10) as u128,
        play_duration: nanos(30u64.wrapping_add(play_draw % longest)) as u128,
        pause_after: 0,
    }
}

/// A viewer whose plan two draws decided.
pub open spec fn is_random_viewer(p: ViewerPlan, duration: u64) -> bool {
    exists|join_draw: u64, play_draw: u64| p == #[trigger] random_viewer(duration, join_draw, play_draw)
}

impl LoadPlan {
    /// The period of a wave, as often as there were viewers before number `i`.
    pub open spec fn wave_seconds(self, i: usize) -> int {
        (self.duration / 3) * (i as u32)
    }

    /// When viewer number `i` of a wave joins: the joins are spread over the first third.
    pub open spec fn wave_delay(self, i: usize) -> int {
        nanos(self.duration / 3) * (i as u32) / (self.viewers as u32 as int)
    }

    /// Every delay can be computed, and no viewer of a wave joins after the end.
    pub open spec fn feasible(self) -> bool {
        match self.behavior {
            PlaybackBehavior::Steady => self.ramp_up > 0 && self.viewers > 0 ==> self.viewers as u32
                > 0,
            PlaybackBehavior::Wave => {
                &&& self.viewers > 0 ==> self.viewers as u32 > 0
                &&& forall|i: usize|
                    #![trigger self.wave_seconds(i)]
                    #![trigger self.wave_delay(i)]
                    i < self.viewers ==> self.wave_seconds(i) <= u64::MAX && self.wave_delay(i) <= nanos(
                        self.duration,
                    )
            },
            _ => true,
        }
    }

    /// What viewer number `i` does, where chance has no part in it.
    pub open spec fn viewer(self, i: usize) -> ViewerPlan {
        match self.behavior {
            PlaybackBehavior::Wave => ViewerPlan {
                join_delay: self.wave_delay(i) as u128,
                play_duration: (nanos(self.duration) - self.wave_delay(i)) as u128,
                pause_after: 0,
            },
            PlaybackBehavior::Spike => ViewerPlan {
                join_delay: if i >= self.viewers / 2 {
                    nanos(self.duration / 4) as u128
                } else {
                    0
                },
                play_duration: nanos(self.duration) as u128,
                pause_after: 0,
            },
            _ => ViewerPlan {
                join_delay: 0,
                play_duration: nanos(self.duration) as u128,
                pause_after: if self.ramp_up > 0 {
                    (nanos(self.ramp_up) / (self.viewers as u32 as int)) as u128
                } else {
                    0
                },
            },
        }
    }
}

/// `random` of the `rand` crate draws a number. Nothing is said of which.
#[verifier::external_body]
fn random_number() -> (r: u64) {
    rand::random::<u64>()
}

fn in_nanos(seconds: u64) -> (r: u128)
    ensures
        r == nanos(seconds),
{
    seconds as u128 * 1_000_000_000
}

/// A viewer made of two random numbers.
pub fn random_viewer_from(duration: u64, join_draw: u64, play_draw: u64) -> (r: ViewerPlan)
    ensures
        r == random_viewer(duration, join_draw, play_draw),
{
    let longest: u64 = if duration > 30 {
        duration
    } else {
        30
    };
    let seconds: u64 = 30u64.wrapping_add(play_draw % longest);
    ViewerPlan {
        join_delay: in_nanos(join_draw % 10),
        play_duration: in_nanos(seconds),
        pause_after: 0,
    }
}

proof fn lemma_product_fits(seconds: u64, n: u32)
    ensures
        0 <= nanos(seconds) * n <= u128::MAX,
        0 <= seconds * n <= u128::MAX,
{
    assert(0 <= seconds * n <= 18_446_744_073_709_551_615 * 4_294_967_295) by (nonlinear_arith)
        requires
            0 <= seconds <= 18_446_744_073_709_551_615,
            0 <= n <= 4_294_967_295,
    ;
    assert(nanos(seconds) * n == seconds * n * 1_000_000_000) by (nonlinear_arith)
        requires
            nanos(seconds) == seconds * 1_000_000_000,
    ;
}

impl LoadPlan {
    /// When viewer number `i` of a wave joins.
    fn delay(&self, i: usize) -> (r: u128)
        requires
            self.viewers as u32 > 0,
        ensures
            r == self.wave_delay(i),
    {
        let period: u64 = self.duration / 3;
        proof {
            lemma_product_fits(period, i as u32);
        }
        in_nanos(period) * (i as u32 as u128) / (self.viewers as u32 as u128)
    }

    /// Whether every delay can be computed, and no viewer of a wave joins after the end.
    pub fn is_feasible(&self) -> (r: bool)
        ensures
            r == self.feasible(),
    {
        match self.behavior {
            PlaybackBehavior::Steady => !(self.ramp_up > 0 && self.viewers > 0) || self.viewers as u32 > 0,
            PlaybackBehavior::Wave => {
                if self.viewers > 0 && self.viewers as u32 == 0 {
                    return false;
                }
                let period: u64 = self.duration / 3;
                let limit: u128 = in_nanos(self.duration);
                let mut i: usize = 0;
                while i < self.viewers
                    invariant
                        0 <= i <= self.viewers,
                        self.viewers > 0 ==> self.viewers as u32 > 0,
                        period == self.duration / 3,
                        limit == nanos(self.duration),
                        self.behavior is Wave,
                        forall|j: usize|
                            #![trigger self.wave_seconds(j)]
                            #![trigger self.wave_delay(j)]
                            j < i ==> self.wave_seconds(j) <= u64::MAX && self.wave_delay(j) <= nanos(
                                self.duration,
                            ),
                    decreases self.viewers - i,
                {
                    proof {
                        lemma_product_fits(period, i as u32);
                    }
                    let seconds: u128 = period as u128 * (i as u32 as u128);
                    let delay: u128 = self.delay(i);
                    assert(self.wave_seconds(i) == seconds);
                    if seconds > u64::MAX as u128 || delay > limit {
                        assert(self.wave_delay(i) == delay);
                        return false;
                    }
                    i = i + 1;
                }
                true
            },
            _ => true,
        }
    }

    fn viewer_plan(&self, i: usize) -> (r: ViewerPlan)
        requires
            self.feasible(),
            !(self.behavior is Random),
            i < self.viewers,
        ensures
            r == self.viewer(i),
    {
        match self.behavior {
            PlaybackBehavior::Wave => {
                let limit: u128 = in_nanos(self.duration);
                let delay: u128 = self.delay(i);
                assert(self.wave_delay(i) == delay);
                ViewerPlan { join_delay: delay, play_duration: limit - delay, pause_after: 0 }
            },
            PlaybackBehavior::Spike => {
                let join_delay: u128 = if i >= self.viewers / 2 {
                    in_nanos(self.duration / 4)
                } else {
                    0
                };
                ViewerPlan { join_delay, play_duration: in_nanos(self.duration), pause_after: 0 }
            },
            _ => {
                let pause_after: u128 = if self.ramp_up > 0 {
                    in_nanos(self.ramp_up) / (self.viewers as u32 as u128)
                } else {
                    0
                };
                ViewerPlan { join_delay: 0, play_duration: in_nanos(self.duration), pause_after }
            },
        }
    }

    /// What each viewer of a stream does.
    pub fn spawn_viewers(&self) -> (r: Vec<ViewerPlan>)
        requires
            self.feasible(),
        ensures
            r@.len() == self.viewers,
            !(self.behavior is Random) ==> forall|i: usize|
                i < self.viewers ==> #[trigger] r@[i as int] == self.viewer(i),
            self.behavior is Random ==> forall|i: int|
                0 <= i < self.viewers ==> is_random_viewer(#[trigger] r@[i], self.duration),
    {
        let mut r: Vec<ViewerPlan> = Vec::new();
        let mut i: usize = 0;
        while i < self.viewers
            invariant
                self.feasible(),
                0 <= i <= self.viewers,
                r@.len() == i,
                !(self.behavior is Random) ==> forall|j: usize|
                    j < i ==> #[trigger] r@[j as int] == self.viewer(j),
                self.behavior is Random ==> forall|j: int|
                    0 <= j < i ==> is_random_viewer(#[trigger] r@[j], self.duration),
            decreases self.viewers - i,
        {
            match self.behavior {
                PlaybackBehavior::Random => {
                    let join_draw: u64 = random_number();
                    let play_draw: u64 = random_number();
                    r.push(random_viewer_from(self.duration, join_draw, play_draw));
                    assert(r@[i as int] == random_viewer(self.duration, join_draw, play_draw));
                },
                _ => {
                    r.push(self.viewer_plan(i));
                },
            }
            i = i + 1;
        }
        r
    }
}

/// The viewers of a wave join in order within the first third, and all play until the
/// end.
pub proof fn law_wave_ends_together(plan: LoadPlan, i: usize, j: usize)
    requires
        plan.behavior is Wave,
        plan.feasible(),
        i <= j < plan.viewers <= u32::MAX,
    ensures
        plan.viewer(i).join_delay <= plan.viewer(j).join_delay <= nanos(plan.duration / 3),
        plan.viewer(i).join_delay + plan.viewer(i).play_duration == nanos(plan.duration),
{
    let period = nanos(plan.duration / 3);
    let n = plan.viewers as int;
    assert(plan.wave_delay(i) <= nanos(plan.duration));
    assert(plan.wave_delay(j) <= nanos(plan.duration));
    assert(0 <= period * i <= period * j <= period * n) by (nonlinear_arith)
        requires
            0 <= period,
            0 <= i <= j < n,
    ;
    assert(0 <= period * i / n <= period * j / n <= period) by (nonlinear_arith)
        requires
            0 <= period * i <= period * j <= period * n,
            n > 0,
    ;
}

/// A test of ordinary size can always be planned.
pub proof fn law_ordinary_tests_are_feasible(plan: LoadPlan)
    requires
        plan.viewers <= u32::MAX,
        plan.duration / 3 * plan.viewers <= u64::MAX,
    ensures
        plan.feasible(),
{
    let period = (plan.duration / 3) as int;
    let n = plan.viewers as int;
    assert forall|i: usize|
        #![trigger plan.wave_seconds(i)]
        #![trigger plan.wave_delay(i)]
        i < plan.viewers implies plan.wave_seconds(i) <= u64::MAX && plan.wave_delay(i) <= nanos(
        plan.duration,
    ) by {
        assert(period * i <= period * n) by (nonlinear_arith)
            requires
                0 <= period,
                0 <= i < n,
        ;
        let long = nanos(plan.duration / 3);
        assert(long * i / n <= long) by (nonlinear_arith)
            requires
                0 <= long,
                0 <= i < n,
        ;
    }
}

/// A viewer at random waits less than ten seconds and plays half a minute at least.
pub proof fn law_random_viewer_stays_a_while(plan: ViewerPlan, duration: u64)
    requires
        is_random_viewer(plan, duration),
        duration <= u64::MAX - 30,
    ensures
        plan.join_delay < nanos(10),
        nanos(30) <= plan.play_duration,
        plan.play_duration < nanos(30) + nanos(if duration > 30 { duration } else { 30 }),
{
}

/// Steady viewers join at once when they are started and play for the whole time; the pauses
/// between them fill the ramp-up, as far as whole nanoseconds go.
pub proof fn law_steady_viewers_fill_the_ramp_up(plan: LoadPlan, i: usize)
    requires
        plan.behavior is Steady,
        i < plan.viewers <= u32::MAX,
    ensures
        ({
            let (v, n) = (plan.viewer(i), plan.viewers as int);
            &&& v.join_delay == 0
            &&& v.play_duration == plan.duration * 1_000_000_000
            &&& plan.ramp_up == 0 ==> v.pause_after == 0
            &&& n * v.pause_after <= plan.ramp_up * 1_000_000_000
            &&& plan.ramp_up > 0 ==> plan.ramp_up * 1_000_000_000 < n * (v.pause_after + 1)
        }),
{
    let (total, n) = (nanos(plan.ramp_up), plan.viewers as int);
    let pause = total / n;
    assert(n * pause <= total < n * (pause + 1) && 0 <= pause <= total) by (nonlinear_arith)
        requires
            pause == total / n,
            n > 0,
            total >= 0,
    ;
    assert(n * 0 == 0);
}

/// In a spike the first half of the viewers joins at once and the other half together, after
/// a quarter of the time; each plays for the whole time.
pub proof fn law_spike_comes_in_two_halves(plan: LoadPlan, i: usize)
    requires
        plan.behavior is Spike,
        i < plan.viewers,
    ensures
        2 * (i + 1) <= plan.viewers ==> plan.viewer(i).join_delay == 0,
        2 * (i + 1) > plan.viewers ==> plan.viewer(i).join_delay == (plan.duration / 4) * 1_000_000_000,
        plan.viewer(i).play_duration == plan.duration * 1_000_000_000,
        plan.viewer(i).pause_after == 0,
{
}

/// The viewers of a wave join at even distances, the first at once: viewer `i` of `n` comes
/// after the `i`th of `n` equal parts of a third of the time, as far as whole nanoseconds go.
pub proof fn law_wave_is_even(plan: LoadPlan, i: usize)
    requires
        plan.behavior is Wave,
        plan.feasible(),
        i < plan.viewers <= u32::MAX,
    ensures
        ({
            let (delay, n) = (plan.viewer(i).join_delay, plan.viewers as int);
            let third = (plan.duration / 3) * 1_000_000_000;
            &&& n * delay <= third * i < n * (delay + 1)
            &&& i == 0 ==> delay == 0
            &&& plan.viewer(i).pause_after == 0
        }),
{
    let (third, n) = (nanos(plan.duration / 3), plan.viewers as int);
    let delay = third * i / n;
    assert(plan.wave_delay(i) <= nanos(plan.duration));
    assert(plan.wave_delay(i) == delay);
    assert(0 <= third * i) by (nonlinear_arith)
        requires
            0 <= third,
            0 <= i,
    ;
    assert(n * delay <= third * i < n * (delay + 1) && 0 <= delay) by (nonlinear_arith)
        requires
            delay == third * i / n,
            n > 0,
            third * i >= 0,
    ;
    if i == 0 {
        assert(third * i == 0) by (nonlinear_arith)
            requires
                i == 0,
        ;
    }
}

/// The first draw decides alone when a viewer at random joins, in whole seconds below ten,
/// and the second how long it plays, in whole seconds from thirty on.
pub proof fn law_draws_decide_random_viewer(
    duration: u64,
    join_draw: u64,
    play_draw: u64,
    other_join: u64,
    other_play: u64,
)
    requires
        duration <= u64::MAX - 30,
    ensures
        ({
            let v = random_viewer(duration, join_draw, play_draw);
            &&& join_draw < 10 ==> v.join_delay == join_draw * 1_000_000_000
            &&& play_draw < 30 || play_draw < duration ==> v.play_duration == (30 + play_draw)
                * 1_000_000_000
            &&& random_viewer(duration, join_draw, other_play).join_delay == v.join_delay
            &&& random_viewer(duration, other_join, play_draw).play_duration == v.play_duration
            &&& v.pause_after == 0
        }),
{
    let longest: u64 = if duration > 30 {
        duration
    } else {
        30
    };
    if play_draw < longest {
        vstd::arithmetic::div_mod::lemma_small_mod(play_draw as nat, longest as nat);
    }
}

} // verus!
