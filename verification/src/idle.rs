//! Idle suspension: when a sidecar nobody is using may be given back.
//!
//! [`IdlePolicy`] is the decision — one clock per live thread, over the samples it is
//! given and an injected `now` — so every guard can be asserted without waiting on a clock.
//! Sampling the live sessions and stopping the ones it names is the host's loop.
//!
//! Time here is milliseconds on the host's monotonic clock: `now` is when a round was
//! sampled, and a clock remembers the round it started in.
use vstd::prelude::*;

use crate::order::{sort_by_key, sorted_by_key, views};
use crate::text::{parse_u64, parse_u64_spec, str_eq, trim, trim_str};

verus! {

broadcast use vstd::seq_lib::group_to_multiset_ensures;

/// The idle window, in seconds, unless the environment overrides it.
pub const DEFAULT_WINDOW_SECS: u64 = 600;

/// The environment variable that overrides the window, in seconds.
pub const WINDOW_ENV: &'static str = "OMP_DESKTOP_IDLE_SECS";

/// How often the live threads are sampled, by default, in seconds.
pub const DEFAULT_SAMPLE_SECS: u64 = 15;

/// How long a sidecar gets to finish cleanly before it is killed, in seconds.
pub const DEFAULT_GRACE_SECS: u64 = 5;

/// Everything about one thread's activity the policy decides on.
///
/// A change in any field restarts the thread's clock.
#[derive(Debug, Clone, PartialEq, Eq)]
pub struct Fingerprint {
    /// The engine's own message count.
    pub messages: u64,
    /// Messages the user queued for the next turn.
    pub queued: u64,
    /// The ids of the dialogs the engine is waiting on, in the order it asked.
    pub dialogs: Vec<String>,
    /// A turn is in flight.
    pub streaming: bool,
}

/// A fingerprint as values.
#[verifier::ext_equal]
pub struct FingerprintView {
    pub messages: u64,
    pub queued: u64,
    pub dialogs: Seq<Seq<char>>,
    pub streaming: bool,
}

impl View for Fingerprint {
    type V = FingerprintView;

    open spec fn view(&self) -> FingerprintView {
        FingerprintView {
            messages: self.messages,
            queued: self.queued,
            dialogs: views(self.dialogs@),
            streaming: self.streaming,
        }
    }
}

/// Whether a thread in this state may be released at all: nothing streaming, nothing
/// queued, and no dialog the engine is blocked on.
pub open spec fn releasable_spec(f: FingerprintView) -> bool {
    !f.streaming && f.queued == 0 && f.dialogs.len() == 0
}

impl Fingerprint {
    /// Whether a thread in this state may be released at all.
    ///
    /// A streaming turn is work in progress, a pending dialog is the engine blocked on an
    /// answer, and a queued message is a prompt the user has already typed.
    pub fn releasable(&self) -> (r: bool)
        ensures
            r == releasable_spec(self@),
    {
        !self.streaming && self.queued == 0 && self.dialogs.len() == 0
    }

    /// Whether two fingerprints are the same.
    pub fn same_as(&self, other: &Fingerprint) -> (r: bool)
        ensures
            r == (self@ == other@),
    {
        if self.messages != other.messages || self.queued != other.queued || self.streaming
            != other.streaming {
            return false;
        }
        if self.dialogs.len() != other.dialogs.len() {
            assert(self@.dialogs.len() != other@.dialogs.len());
            return false;
        }
        let n = self.dialogs.len();
        let mut i: usize = 0;
        while i < n
            invariant
                n == self.dialogs@.len(),
                n == other.dialogs@.len(),
                i <= n,
                forall|k: int| 0 <= k < i ==> self.dialogs@[k]@ == other.dialogs@[k]@,
            decreases n - i,
        {
            if !str_eq(self.dialogs[i].as_str(), other.dialogs[i].as_str()) {
                assert(self@.dialogs[i as int] != other@.dialogs[i as int]);
                return false;
            }
            i = i + 1;
        }
        assert(self@.dialogs =~= other@.dialogs);
        true
    }

    /// A copy of this fingerprint.
    pub fn duplicate(&self) -> (r: Fingerprint)
        ensures
            r@ == self@,
    {
        let mut dialogs: Vec<String> = Vec::new();
        let n = self.dialogs.len();
        let mut i: usize = 0;
        while i < n
            invariant
                n == self.dialogs@.len(),
                i <= n,
                dialogs@.len() == i,
                forall|k: int| 0 <= k < i ==> dialogs@[k]@ == self.dialogs@[k]@,
            decreases n - i,
        {
            dialogs.push(self.dialogs[i].clone());
            i = i + 1;
        }
        let r = Fingerprint {
            messages: self.messages,
            queued: self.queued,
            dialogs,
            streaming: self.streaming,
        };
        assert(r@.dialogs =~= self@.dialogs);
        r
    }
}

/// One thread, as one sampling round saw it.
#[derive(Debug, Clone, PartialEq, Eq)]
pub struct Sample {
    pub thread: String,
    pub fingerprint: Fingerprint,
    /// The window is showing this thread, so it is never idle.
    pub focused: bool,
}

/// A sample as values.
pub struct SampleView {
    pub thread: Seq<char>,
    pub fingerprint: FingerprintView,
    pub focused: bool,
}

impl View for Sample {
    type V = SampleView;

    open spec fn view(&self) -> SampleView {
        SampleView { thread: self.thread@, fingerprint: self.fingerprint@, focused: self.focused }
    }
}

/// One thread's clock: the fingerprint it last saw, and the round it first saw it in.
pub struct ClockView {
    pub fingerprint: FingerprintView,
    pub since: u64,
}

/// How long a clock has run at `now`; never negative, as `Instant::duration_since` saturates.
pub open spec fn elapsed(now: u64, since: u64) -> int {
    if now >= since {
        now - since
    } else {
        0
    }
}

/// Whether a sample whose fingerprint its clock already holds is released this round.
pub open spec fn due(sample: SampleView, clock: ClockView, now: u64, window: u64) -> bool {
    !sample.focused && releasable_spec(sample.fingerprint) && elapsed(now, clock.since) >= window
}

/// One sample folded into the clocks and the threads named so far.
///
/// A sample its clock already holds is released when it is due; any other sample starts
/// (or restarts) its thread's clock at `now`.
pub open spec fn review_step(
    state: (Map<Seq<char>, ClockView>, Seq<Seq<char>>),
    sample: SampleView,
    now: u64,
    window: u64,
) -> (Map<Seq<char>, ClockView>, Seq<Seq<char>>) {
    let clocks = state.0;
    let released = state.1;
    if clocks.contains_key(sample.thread) && clocks[sample.thread].fingerprint
        == sample.fingerprint {
        if due(sample, clocks[sample.thread], now, window) {
            (clocks, released.push(sample.thread))
        } else {
            (clocks, released)
        }
    } else {
        (clocks.insert(sample.thread, ClockView { fingerprint: sample.fingerprint, since: now }), released)
    }
}

/// A round of samples folded in, in the order they were taken.
pub open spec fn review_fold(
    clocks: Map<Seq<char>, ClockView>,
    samples: Seq<SampleView>,
    now: u64,
    window: u64,
) -> (Map<Seq<char>, ClockView>, Seq<Seq<char>>)
    decreases samples.len(),
{
    if samples.len() == 0 {
        (clocks, Seq::empty())
    } else {
        review_step(review_fold(clocks, samples.drop_last(), now, window), samples.last(), now, window)
    }
}

/// The threads a round of samples names.
pub open spec fn sampled(samples: Seq<SampleView>) -> Set<Seq<char>> {
    Set::new(|t: Seq<char>| exists|i: int| 0 <= i < samples.len() && samples[i].thread == t)
}

/// The clocks of the threads that are still live: a thread that is gone has no clock.
pub open spec fn live_clocks(clocks: Map<Seq<char>, ClockView>, samples: Seq<SampleView>) -> Map<
    Seq<char>,
    ClockView,
> {
    clocks.restrict(sampled(samples))
}

/// What a round of review does: the clocks it leaves, and the threads it releases (before
/// they are put in order).
pub open spec fn review_spec(
    clocks: Map<Seq<char>, ClockView>,
    samples: Seq<SampleView>,
    now: u64,
    window: u64,
) -> (Map<Seq<char>, ClockView>, Seq<Seq<char>>) {
    review_fold(live_clocks(clocks, samples), samples, now, window)
}

struct Clock {
    thread: String,
    fingerprint: Fingerprint,
    since: u64,
}

impl Clock {
    spec fn clock_view(self) -> ClockView {
        ClockView { fingerprint: self.fingerprint@, since: self.since }
    }
}

spec fn threads_unique(s: Seq<Clock>) -> bool {
    forall|i: int, j: int| 0 <= i < j < s.len() ==> s[i].thread@ != s[j].thread@
}

spec fn has_thread(s: Seq<Clock>, t: Seq<char>) -> bool {
    exists|i: int| 0 <= i < s.len() && s[i].thread@ == t
}

spec fn clock_map(s: Seq<Clock>) -> Map<Seq<char>, ClockView> {
    Map::new(
        |t: Seq<char>| has_thread(s, t),
        |t: Seq<char>| s[choose|i: int| 0 <= i < s.len() && s[i].thread@ == t].clock_view(),
    )
}

proof fn lemma_clock_map_at(s: Seq<Clock>, i: int)
    requires
        threads_unique(s),
        0 <= i < s.len(),
    ensures
        clock_map(s).contains_key(s[i].thread@),
        clock_map(s)[s[i].thread@] == s[i].clock_view(),
{
    let t = s[i].thread@;
    assert(has_thread(s, t));
    let w = choose|j: int| 0 <= j < s.len() && s[j].thread@ == t;
    if w != i {
        if w < i {
            assert(s[w].thread@ != s[i].thread@);
        } else {
            assert(s[i].thread@ != s[w].thread@);
        }
    }
}

proof fn lemma_clock_map_push(s: Seq<Clock>, c: Clock)
    requires
        threads_unique(s),
        !has_thread(s, c.thread@),
    ensures
        threads_unique(s.push(c)),
        clock_map(s.push(c)) == clock_map(s).insert(c.thread@, c.clock_view()),
{
    let s2 = s.push(c);
    assert forall|i: int, j: int| 0 <= i < j < s2.len() implies s2[i].thread@ != s2[j].thread@ by {
        if j == s.len() {
            assert(s[i].thread@ == s2[i].thread@);
        }
    }
    let m = clock_map(s).insert(c.thread@, c.clock_view());
    assert forall|t: Seq<char>| #[trigger] has_thread(s2, t) == m.contains_key(t) by {
        if has_thread(s2, t) {
            let k = choose|k: int| 0 <= k < s2.len() && s2[k].thread@ == t;
            if k < s.len() {
                assert(s[k] == s2[k]);
                assert(has_thread(s, t));
            }
        }
        if has_thread(s, t) {
            let k = choose|k: int| 0 <= k < s.len() && s[k].thread@ == t;
            assert(s2[k] == s[k]);
        }
        if t == c.thread@ {
            assert(s2[s.len() as int] == c);
        }
    }
    assert forall|t: Seq<char>| m.contains_key(t) implies clock_map(s2)[t] == m[t] by {
        if t == c.thread@ {
            lemma_clock_map_at(s2, s.len() as int);
        } else {
            let k = choose|k: int| 0 <= k < s.len() && s[k].thread@ == t;
            lemma_clock_map_at(s, k);
            lemma_clock_map_at(s2, k);
        }
    }
    assert(clock_map(s2) =~= m);
}

proof fn lemma_clock_map_update(s: Seq<Clock>, i: int, c: Clock)
    requires
        threads_unique(s),
        0 <= i < s.len(),
        s[i].thread@ == c.thread@,
    ensures
        threads_unique(s.update(i, c)),
        clock_map(s.update(i, c)) == clock_map(s).insert(c.thread@, c.clock_view()),
{
    let s2 = s.update(i, c);
    let m = clock_map(s).insert(c.thread@, c.clock_view());
    assert forall|a: int, b: int| 0 <= a < b < s2.len() implies s2[a].thread@ != s2[b].thread@ by {
        assert(s2[a].thread@ == s[a].thread@);
        assert(s2[b].thread@ == s[b].thread@);
    }
    assert forall|t: Seq<char>| #[trigger] has_thread(s2, t) == m.contains_key(t) by {
        if has_thread(s2, t) {
            let k = choose|k: int| 0 <= k < s2.len() && s2[k].thread@ == t;
            assert(s[k].thread@ == t);
        }
        if has_thread(s, t) {
            let k = choose|k: int| 0 <= k < s.len() && s[k].thread@ == t;
            assert(s2[k].thread@ == t);
        }
    }
    assert forall|t: Seq<char>| m.contains_key(t) implies clock_map(s2)[t] == m[t] by {
        if t == c.thread@ {
            lemma_clock_map_at(s2, i);
        } else {
            let k = choose|k: int| 0 <= k < s.len() && s[k].thread@ == t;
            lemma_clock_map_at(s, k);
            lemma_clock_map_at(s2, k);
        }
    }
    assert(clock_map(s2) =~= m);
}

/// The policy: one clock per live thread, over the samples it is given.
pub struct IdlePolicy {
    clocks: Vec<Clock>,
}

impl View for IdlePolicy {
    type V = Map<Seq<char>, ClockView>;

    closed spec fn view(&self) -> Map<Seq<char>, ClockView> {
        clock_map(self.clocks@)
    }
}

impl IdlePolicy {
    #[verifier::type_invariant]
    spec fn well_formed(self) -> bool {
        threads_unique(self.clocks@)
    }

    /// A policy with no clocks yet.
    pub fn new() -> (r: IdlePolicy)
        ensures
            r@ == Map::<Seq<char>, ClockView>::empty(),
    {
        let r = IdlePolicy { clocks: Vec::new() };
        assert(r@ =~= Map::<Seq<char>, ClockView>::empty());
        r
    }

    /// Fold one round of samples in, and name the threads to release, in order.
    ///
    /// A thread that is no longer sampled loses its clock. A sample whose fingerprint its
    /// clock already holds is released once the window has passed since the clock started,
    /// unless it is focused or a guard holds it; any other sample starts its thread's clock
    /// at `now` — which is why a thread is never released in the round it first appears.
    pub fn review(&mut self, now: u64, window: u64, samples: &[Sample]) -> (r: Vec<String>)
        ensures
            final(self)@ == review_spec(old(self)@, views(samples@), now, window).0,
            sorted_by_key::<String>(views(r@)),
            views(r@).to_multiset() == review_spec(old(self)@, views(samples@), now, window).1.to_multiset(),
    {
        proof {
            use_type_invariant(&*self);
        }
        let ghost sv = views(samples@);
        let ghost start = self@;
        let mut old_clocks: Vec<Clock> = Vec::new();
        std::mem::swap(&mut old_clocks, &mut self.clocks);
        let ghost o = old_clocks@;
        assert(clock_map(o) == start);
        // Keep the clocks of the threads that are still sampled.
        let mut kept: Vec<Clock> = Vec::new();
        let total = old_clocks.len();
        let mut k: usize = 0;
        assert(o.skip(0) =~= o);
        while old_clocks.len() > 0
            invariant
                total == o.len(),
                k + old_clocks@.len() == total,
                old_clocks@ == o.skip(k as int),
                threads_unique(o),
                threads_unique(kept@),
                sv == views(samples@),
                forall|i: int| 0 <= i < kept@.len() ==> (exists|j: int| 0 <= j < k && #[trigger] kept@[i] == o[j]),
                forall|j: int| 0 <= j < k && sampled(sv).contains(#[trigger] o[j].thread@) ==> has_thread(kept@, o[j].thread@),
                forall|t: Seq<char>| has_thread(kept@, t) ==> sampled(sv).contains(t),
                clock_map(kept@) <= clock_map(o),
            decreases old_clocks@.len(),
        {
            let c = old_clocks.remove(0);
            assert(c == o[k as int]);
            assert(old_clocks@ =~= o.skip(k + 1));
            let mut live = false;
            let mut s: usize = 0;
            while s < samples.len()
                invariant
                    s <= samples@.len(),
                    sv == views(samples@),
                    live == exists|q: int| 0 <= q < s && samples@[q].thread@ == c.thread@,
                decreases samples@.len() - s,
            {
                if str_eq(samples[s].thread.as_str(), c.thread.as_str()) {
                    live = true;
                }
                s = s + 1;
            }
            proof {
                assert(live == sampled(sv).contains(c.thread@)) by {
                    if live {
                        let q = choose|q: int| 0 <= q < samples@.len() && samples@[q].thread@ == c.thread@;
                        assert(sv[q].thread == c.thread@);
                    }
                    if sampled(sv).contains(c.thread@) {
                        let q = choose|q: int| 0 <= q < sv.len() && sv[q].thread == c.thread@;
                        assert(samples@[q].thread@ == c.thread@);
                    }
                }
            }
            if live {
                proof {
                    assert(!has_thread(kept@, c.thread@)) by {
                        if has_thread(kept@, c.thread@) {
                            let i = choose|i: int| 0 <= i < kept@.len() && kept@[i].thread@ == c.thread@;
                            let j = choose|j: int| 0 <= j < k && kept@[i] == o[j];
                            assert(o[j].thread@ != o[k as int].thread@);
                        }
                    }
                    lemma_clock_map_push(kept@, c);
                    lemma_clock_map_at(o, k as int);
                }
                let ghost before = kept@;
                kept.push(c);
                proof {
                    assert forall|i: int| 0 <= i < kept@.len() implies (exists|j: int| 0 <= j < k + 1 && #[trigger] kept@[i] == o[j]) by {
                        if i < before.len() {
                            assert(kept@[i] == before[i]);
                        } else {
                            assert(kept@[i] == o[k as int]);
                        }
                    }
                    assert forall|j: int| 0 <= j < k + 1 && sampled(sv).contains(#[trigger] o[j].thread@) implies has_thread(kept@, o[j].thread@) by {
                        if j < k {
                            let i = choose|i: int| 0 <= i < before.len() && before[i].thread@ == o[j].thread@;
                            assert(kept@[i] == before[i]);
                        } else {
                            assert(kept@[before.len() as int] == c);
                        }
                    }
                    assert forall|t: Seq<char>| has_thread(kept@, t) implies sampled(sv).contains(t) by {
                        let i = choose|i: int| 0 <= i < kept@.len() && kept@[i].thread@ == t;
                        if i < before.len() {
                            assert(kept@[i] == before[i]);
                            assert(has_thread(before, t));
                        }
                    }
                }
            } else {
                proof {
                    assert forall|j: int| 0 <= j < k + 1 && sampled(sv).contains(#[trigger] o[j].thread@) implies has_thread(kept@, o[j].thread@) by {
                        if j == k {
                            assert(false);
                        }
                    }
                    assert forall|i: int| 0 <= i < kept@.len() implies (exists|j: int| 0 <= j < k + 1 && #[trigger] kept@[i] == o[j]) by {
                        let j = choose|j: int| 0 <= j < k && kept@[i] == o[j];
                    }
                }
            }
            k = k + 1;
        }
        proof {
            let m = clock_map(kept@);
            let lc = live_clocks(start, sv);
            assert forall|t: Seq<char>| #[trigger] m.contains_key(t) == lc.contains_key(t) by {
                if lc.contains_key(t) {
                    let j = choose|j: int| 0 <= j < o.len() && o[j].thread@ == t;
                    assert(o.skip(k as int).len() == 0);
                }
            }
            assert(m =~= lc);
        }
        // Fold each sample in.
        let mut released: Vec<String> = Vec::new();
        let mut i: usize = 0;
        assert(sv.take(0) =~= Seq::<SampleView>::empty());
        assert(views(released@) =~= Seq::<Seq<char>>::empty());
        while i < samples.len()
            invariant
                i <= samples@.len(),
                sv == views(samples@),
                threads_unique(kept@),
                (clock_map(kept@), views(released@)) == review_fold(live_clocks(start, sv), sv.take(i as int), now, window),
            decreases samples@.len() - i,
        {
            let sample = &samples[i];
            assert(sv.take(i + 1).drop_last() =~= sv.take(i as int));
            assert(sv[i as int] == sample@);
            let ghost before_map = clock_map(kept@);
            let mut found: Option<usize> = None;
            let mut j: usize = 0;
            while j < kept.len()
                invariant
                    j <= kept@.len(),
                    found matches Some(f) ==> f < j && kept@[f as int].thread@ == sample.thread@,
                    found is None ==> forall|q: int| 0 <= q < j ==> kept@[q].thread@ != sample.thread@,
                decreases kept@.len() - j,
            {
                if found.is_none() && str_eq(kept[j].thread.as_str(), sample.thread.as_str()) {
                    found = Some(j);
                }
                j = j + 1;
            }
            match found {
                Some(f) => {
                    proof {
                        lemma_clock_map_at(kept@, f as int);
                    }
                    if kept[f].fingerprint.same_as(&sample.fingerprint) {
                        let since = kept[f].since;
                        let elapsed = if now >= since {
                            now - since
                        } else {
                            0
                        };
                        if !sample.focused && sample.fingerprint.releasable() && elapsed >= window {
                            let ghost rb = released@;
                            released.push(sample.thread.clone());
                            assert(views(released@) =~= views(rb).push(sample@.thread));
                        }
                    } else {
                        let c = Clock {
                            thread: sample.thread.clone(),
                            fingerprint: sample.fingerprint.duplicate(),
                            since: now,
                        };
                        proof {
                            lemma_clock_map_update(kept@, f as int, c);
                        }
                        kept.set(f, c);
                    }
                },
                None => {
                    let c = Clock {
                        thread: sample.thread.clone(),
                        fingerprint: sample.fingerprint.duplicate(),
                        since: now,
                    };
                    proof {
                        lemma_clock_map_push(kept@, c);
                    }
                    kept.push(c);
                },
            }
            i = i + 1;
        }
        assert(sv.take(samples@.len() as int) =~= sv);
        let r = sort_by_key(released);
        self.clocks = kept;
        r
    }
}

impl Default for IdlePolicy {
    fn default() -> (r: IdlePolicy)
        ensures
            r@ == Map::<Seq<char>, ClockView>::empty(),
    {
        IdlePolicy::new()
    }
}

/// What the supervisor needs to know, in seconds: how long, how often, and how patient.
#[derive(Debug, Clone, Copy)]
pub struct Config {
    pub window: u64,
    pub interval: u64,
    pub grace: u64,
}

/// The window a setting asks for: a positive whole number of seconds, or the default.
pub open spec fn window_from(raw: Option<Seq<char>>) -> u64 {
    match raw {
        Some(text) => match parse_u64_spec(trim(text)) {
            Some(secs) if secs > 0 => secs,
            _ => DEFAULT_WINDOW_SECS,
        },
        None => DEFAULT_WINDOW_SECS,
    }
}

impl Config {
    /// The app's own settings, with the window taken from `raw` — the value of
    /// [`WINDOW_ENV`], when it is set.
    ///
    /// A window of zero is refused and the default kept: it would release a thread on its
    /// second sample.
    pub fn from_setting(raw: Option<&str>) -> (r: Config)
        ensures
            r.window == window_from(
                match raw {
                    Some(t) => Some(t@),
                    None => None,
                },
            ),
            r.interval == DEFAULT_SAMPLE_SECS,
            r.grace == DEFAULT_GRACE_SECS,
    {
        let window = match raw {
            Some(text) => match parse_u64(trim_str(text)) {
                Some(secs) if secs > 0 => secs,
                _ => DEFAULT_WINDOW_SECS,
            },
            None => DEFAULT_WINDOW_SECS,
        };
        Config { window, interval: DEFAULT_SAMPLE_SECS, grace: DEFAULT_GRACE_SECS }
    }
}

/// One sample per thread, as the registry of live threads produces them.
pub open spec fn one_sample_per_thread(samples: Seq<SampleView>) -> bool {
    forall|i: int, j: int| 0 <= i < j < samples.len() ==> samples[i].thread != samples[j].thread
}

/// The clock a sampled thread has after a round: the one it had, when that clock already
/// held this fingerprint, or a new one started at `now`.
pub open spec fn clock_after(clocks: Map<Seq<char>, ClockView>, sample: SampleView, now: u64) -> ClockView {
    if clocks.contains_key(sample.thread) && clocks[sample.thread].fingerprint == sample.fingerprint {
        clocks[sample.thread]
    } else {
        ClockView { fingerprint: sample.fingerprint, since: now }
    }
}

/// Whether a round releases the thread of `sample`.
pub open spec fn released_by(clocks: Map<Seq<char>, ClockView>, sample: SampleView, now: u64, window: u64) -> bool {
    &&& clocks.contains_key(sample.thread)
    &&& clocks[sample.thread].fingerprint == sample.fingerprint
    &&& due(sample, clocks[sample.thread], now, window)
}

spec fn named_before(samples: Seq<SampleView>, n: int, t: Seq<char>) -> bool {
    exists|i: int| 0 <= i < n && samples[i].thread == t
}

spec fn released_before(clocks: Map<Seq<char>, ClockView>, samples: Seq<SampleView>, n: int, t: Seq<char>, now: u64, window: u64) -> bool {
    exists|i: int| 0 <= i < n && samples[i].thread == t && released_by(clocks, samples[i], now, window)
}

spec fn prefix_state(clocks: Map<Seq<char>, ClockView>, samples: Seq<SampleView>, n: int, now: u64, window: u64) -> (Map<Seq<char>, ClockView>, Seq<Seq<char>>) {
    review_fold(live_clocks(clocks, samples), samples.take(n), now, window)
}

#[verifier::spinoff_prover]
proof fn lemma_review_prefix(
    clocks: Map<Seq<char>, ClockView>,
    samples: Seq<SampleView>,
    now: u64,
    window: u64,
    n: int,
)
    requires
        one_sample_per_thread(samples),
        0 <= n <= samples.len(),
    ensures
        forall|i: int| 0 <= i < n ==> #[trigger] prefix_state(clocks, samples, n, now, window).0.contains_key(samples[i].thread)
            && prefix_state(clocks, samples, n, now, window).0[samples[i].thread] == clock_after(clocks, samples[i], now),
        forall|t: Seq<char>| !named_before(samples, n, t) ==> (#[trigger] prefix_state(clocks, samples, n, now, window).0.contains_key(t) == live_clocks(clocks, samples).contains_key(t)
            && (live_clocks(clocks, samples).contains_key(t) ==> prefix_state(clocks, samples, n, now, window).0[t] == live_clocks(clocks, samples)[t])),
        forall|t: Seq<char>| #[trigger] prefix_state(clocks, samples, n, now, window).1.contains(t) <==> released_before(clocks, samples, n, t, now, window),
    decreases n,
{
    let live = live_clocks(clocks, samples);
    if n == 0 {
        assert(samples.take(0) =~= Seq::<SampleView>::empty());
    } else {
        lemma_review_prefix(clocks, samples, now, window, n - 1);
        assert(samples.take(n).drop_last() =~= samples.take(n - 1));
        let (m0, r0) = prefix_state(clocks, samples, n - 1, now, window);
        let (m, r) = prefix_state(clocks, samples, n, now, window);
        let s = samples[n - 1];
        assert(samples.take(n).last() == s);
        assert((m, r) == review_step((m0, r0), s, now, window));
        assert(sampled(samples).contains(s.thread));
        assert(!named_before(samples, n - 1, s.thread)) by {
            if named_before(samples, n - 1, s.thread) {
                let i = choose|i: int| 0 <= i < n - 1 && samples[i].thread == s.thread;
                assert(samples[i].thread != samples[n - 1].thread);
            }
        }
        assert(live.contains_key(s.thread) == clocks.contains_key(s.thread));
        assert(m0.contains_key(s.thread) == live.contains_key(s.thread));
        assert(m0.contains_key(s.thread) ==> m0[s.thread] == clocks[s.thread]);
        assert forall|i: int| 0 <= i < n implies #[trigger] prefix_state(clocks, samples, n, now, window).0.contains_key(samples[i].thread) && m[samples[i].thread] == clock_after(clocks, samples[i], now) by {
            if i < n - 1 {
                assert(samples[i].thread != s.thread);
                assert(prefix_state(clocks, samples, n - 1, now, window).0.contains_key(samples[i].thread));
            }
        }
        assert forall|t: Seq<char>| !named_before(samples, n, t) implies (#[trigger] m.contains_key(t) == live.contains_key(t) && (live.contains_key(t) ==> m[t] == live[t])) by {
            assert(t != s.thread) by {
                assert(0 <= n - 1 < n && samples[n - 1].thread == s.thread);
            }
            assert(!named_before(samples, n - 1, t)) by {
                if named_before(samples, n - 1, t) {
                    let i = choose|i: int| 0 <= i < n - 1 && samples[i].thread == t;
                    assert(0 <= i < n && samples[i].thread == t);
                }
            }
            assert(m0.contains_key(t) == live.contains_key(t));
        }
        assert forall|t: Seq<char>| #[trigger] r.contains(t) <==> released_before(clocks, samples, n, t, now, window) by {
            if r.contains(t) {
                let k = choose|k: int| 0 <= k < r.len() && r[k] == t;
                if k < r0.len() {
                    assert(r[k] == r0[k]);
                    assert(r0.contains(t));
                    assert(released_before(clocks, samples, n - 1, t, now, window));
                    let i = choose|i: int| 0 <= i < n - 1 && samples[i].thread == t && released_by(clocks, samples[i], now, window);
                    assert(0 <= i < n);
                } else {
                    assert(r != r0);
                    assert(r == r0.push(s.thread));
                    assert(t == s.thread);
                    assert(released_by(clocks, samples[n - 1], now, window));
                }
            }
            if released_before(clocks, samples, n, t, now, window) {
                let i = choose|i: int| 0 <= i < n && samples[i].thread == t && released_by(clocks, samples[i], now, window);
                if i < n - 1 {
                    assert(released_before(clocks, samples, n - 1, t, now, window));
                    assert(r0.contains(t));
                    let k = choose|k: int| 0 <= k < r0.len() && r0[k] == t;
                    assert(r[k] == t);
                } else {
                    assert(r == r0.push(t));
                    assert(r[r.len() - 1] == t);
                }
            }
        }
    }
}

/// A round over one sample per live thread leaves exactly one clock per sampled thread —
/// the one it had when that clock already held the thread's fingerprint, a new one started
/// at `now` otherwise — and releases exactly the threads whose clock already held their
/// fingerprint, whose window has passed, and that neither the window's focus nor a guard
/// holds.
///
/// So a thread the policy had no clock for is never released in the round it first
/// appears, however short the window.
pub proof fn law_review_releases_only_due_threads(
    clocks: Map<Seq<char>, ClockView>,
    samples: Seq<SampleView>,
    now: u64,
    window: u64,
)
    requires
        one_sample_per_thread(samples),
    ensures
        review_spec(clocks, samples, now, window).0.dom() == sampled(samples),
        forall|i: int| 0 <= i < samples.len() ==> #[trigger] review_spec(clocks, samples, now, window).0[samples[i].thread] == clock_after(clocks, samples[i], now),
        forall|t: Seq<char>| review_spec(clocks, samples, now, window).1.contains(t) <==> (exists|i: int| 0 <= i < samples.len() && samples[i].thread == t && released_by(clocks, samples[i], now, window)),
        forall|t: Seq<char>| !clocks.contains_key(t) ==> !review_spec(clocks, samples, now, window).1.contains(t),
{
    lemma_review_prefix(clocks, samples, now, window, samples.len() as int);
    assert(samples.take(samples.len() as int) =~= samples);
    let live = live_clocks(clocks, samples);
    let m = review_spec(clocks, samples, now, window).0;
    assert(prefix_state(clocks, samples, samples.len() as int, now, window) == review_spec(clocks, samples, now, window));
    assert forall|t: Seq<char>| m.dom().contains(t) <==> sampled(samples).contains(t) by {
        if sampled(samples).contains(t) {
            let i = choose|i: int| 0 <= i < samples.len() && samples[i].thread == t;
            assert(m.contains_key(samples[i].thread));
        } else {
            assert(!named_before(samples, samples.len() as int, t));
            assert(!live.contains_key(t));
            assert(prefix_state(clocks, samples, samples.len() as int, now, window).0.contains_key(t) == live.contains_key(t));
        }
    }
    assert(m.dom() =~= sampled(samples));
    assert forall|t: Seq<char>| review_spec(clocks, samples, now, window).1.contains(t) <==> (exists|i: int| 0 <= i < samples.len() && samples[i].thread == t && released_by(clocks, samples[i], now, window)) by {
        assert(prefix_state(clocks, samples, samples.len() as int, now, window).1.contains(t) == released_before(clocks, samples, samples.len() as int, t, now, window));
    }
    assert forall|i: int| 0 <= i < samples.len() implies #[trigger] review_spec(clocks, samples, now, window).0[samples[i].thread] == clock_after(clocks, samples[i], now) by {
        assert(prefix_state(clocks, samples, samples.len() as int, now, window).0.contains_key(samples[i].thread));
    }
}

proof fn lemma_review_prefix_once(
    clocks: Map<Seq<char>, ClockView>,
    samples: Seq<SampleView>,
    now: u64,
    window: u64,
    n: int,
)
    requires
        one_sample_per_thread(samples),
        0 <= n <= samples.len(),
    ensures
        prefix_state(clocks, samples, n, now, window).1.no_duplicates(),
    decreases n,
{
    if n == 0 {
        assert(samples.take(0) =~= Seq::<SampleView>::empty());
    } else {
        lemma_review_prefix_once(clocks, samples, now, window, n - 1);
        lemma_review_prefix(clocks, samples, now, window, n - 1);
        assert(samples.take(n).drop_last() =~= samples.take(n - 1));
        let (m0, r0) = prefix_state(clocks, samples, n - 1, now, window);
        let (m, r) = prefix_state(clocks, samples, n, now, window);
        let s = samples[n - 1];
        assert(samples.take(n).last() == s);
        assert((m, r) == review_step((m0, r0), s, now, window));
        if r != r0 {
            assert(r == r0.push(s.thread));
            assert(!r0.contains(s.thread)) by {
                if r0.contains(s.thread) {
                    assert(released_before(clocks, samples, n - 1, s.thread, now, window));
                    let i = choose|i: int| 0 <= i < n - 1 && samples[i].thread == s.thread && released_by(clocks, samples[i], now, window);
                    assert(samples[i].thread != samples[n - 1].thread);
                }
            }
            assert forall|i: int, j: int| 0 <= i < r.len() && 0 <= j < r.len() && i != j implies r[i] != r[j] by {
                if i < r0.len() && j < r0.len() {
                    assert(r[i] == r0[i] && r[j] == r0[j]);
                } else if i < r0.len() {
                    assert(r[i] == r0[i]);
                } else {
                    assert(r[j] == r0[j]);
                }
            }
        }
    }
}

/// What a round hands back names each released thread once, and names exactly the threads
/// whose clock already held their fingerprint, whose window has passed, and that neither the
/// window's focus nor a guard holds — whatever order the names are put in.
pub proof fn law_a_round_names_each_due_thread_once(
    clocks: Map<Seq<char>, ClockView>,
    samples: Seq<SampleView>,
    now: u64,
    window: u64,
    named: Seq<Seq<char>>,
)
    requires
        one_sample_per_thread(samples),
        named.to_multiset() == review_spec(clocks, samples, now, window).1.to_multiset(),
    ensures
        named.no_duplicates(),
        forall|t: Seq<char>| #[trigger] named.contains(t) <==> (exists|i: int|
            0 <= i < samples.len() && samples[i].thread == t && released_by(clocks, samples[i], now, window)),
{
    let r = review_spec(clocks, samples, now, window).1;
    lemma_review_prefix(clocks, samples, now, window, samples.len() as int);
    lemma_review_prefix_once(clocks, samples, now, window, samples.len() as int);
    assert(samples.take(samples.len() as int) =~= samples);
    assert(prefix_state(clocks, samples, samples.len() as int, now, window) == review_spec(clocks, samples, now, window));
    r.lemma_multiset_has_no_duplicates();
    named.lemma_multiset_has_no_duplicates_conv();
    assert forall|t: Seq<char>| #[trigger] named.contains(t) <==> (exists|i: int|
        0 <= i < samples.len() && samples[i].thread == t && released_by(clocks, samples[i], now, window)) by {
        assert(named.contains(t) <==> named.to_multiset().count(t) > 0);
        assert(r.contains(t) <==> r.to_multiset().count(t) > 0);
        assert(prefix_state(clocks, samples, samples.len() as int, now, window).1.contains(t) == released_before(clocks, samples, samples.len() as int, t, now, window));
    }
}

/// Every guard holds its thread: a thread the window has focused, or that is streaming, has
/// a dialog pending or has messages queued, is not released in a round, however long its
/// clock has run. And focus is no activity: it never restarts a clock, so a thread released
/// from focus is released as soon as its window has passed.
pub proof fn law_every_guard_holds_the_sidecar(
    clocks: Map<Seq<char>, ClockView>,
    samples: Seq<SampleView>,
    now: u64,
    window: u64,
)
    requires
        one_sample_per_thread(samples),
    ensures
        forall|i: int|
            0 <= i < samples.len() && (samples[i].focused || !releasable_spec(samples[i].fingerprint))
                ==> !(#[trigger] review_spec(clocks, samples, now, window).1.contains(samples[i].thread)),
        forall|s: SampleView, focused: bool|
            #[trigger] clock_after(clocks, SampleView { focused, ..s }, now) == clock_after(clocks, s, now),
{
    law_review_releases_only_due_threads(clocks, samples, now, window);
    assert forall|i: int|
        0 <= i < samples.len() && (samples[i].focused || !releasable_spec(samples[i].fingerprint))
            implies !(#[trigger] review_spec(clocks, samples, now, window).1.contains(samples[i].thread)) by {
        if review_spec(clocks, samples, now, window).1.contains(samples[i].thread) {
            let j = choose|j: int| 0 <= j < samples.len() && samples[j].thread == samples[i].thread && released_by(clocks, samples[j], now, window);
            if j != i {
                if j < i {
                    assert(samples[j].thread != samples[i].thread);
                } else {
                    assert(samples[i].thread != samples[j].thread);
                }
            }
        }
    }
}

} // verus!
