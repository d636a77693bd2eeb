//! Per-path event debouncer for the file watcher.
//!
//! The [`Debouncer`] holds events back until their path has been quiet for a
//! time window, so that an editor that writes a file several times for one save
//! causes one rebuild.  Times are in nanoseconds since a start that the caller
//! chooses.

use crate::ordered::OrderedMap;
use vstd::prelude::*;
use vstd::string::*;

verus! {

/// The shortest time window: one millisecond.
pub const MIN_WINDOW: u128 = 1_000_000;

/// Whether something that happened at `ts` is at least `age` old.
pub open spec fn aged(ts: u128, now: u128, age: u128) -> bool {
    now >= ts && now - ts >= age
}

/// The keys that are at least `age` old, in order.
pub open spec fn aged_keys(
    keys: Seq<Seq<char>>,
    times: Map<Seq<char>, u128>,
    now: u128,
    age: u128,
) -> Seq<Seq<char>> {
    keys.filter(|k: Seq<char>| aged(times[k], now, age))
}

/// The keys that are not that old, in order.
pub open spec fn young_keys(
    keys: Seq<Seq<char>>,
    times: Map<Seq<char>, u128>,
    now: u128,
    age: u128,
) -> Seq<Seq<char>> {
    keys.filter(|k: Seq<char>| !aged(times[k], now, age))
}

/// The entries that are not that old.
pub open spec fn young_entries(times: Map<Seq<char>, u128>, now: u128, age: u128) -> Map<
    Seq<char>,
    u128,
> {
    times.restrict(
        Set::new(|k: Seq<char>| times.contains_key(k) && !aged(times[k], now, age)),
    )
}

/// Takes out the entries that are at least `age` old and returns their keys in
/// order.
pub(crate) fn take_aged(times: &mut OrderedMap<u128>, now: u128, age: u128) -> (r: Vec<String>)
    requires
        old(times).wf(),
    ensures
        final(times).wf(),
        crate::globs::texts(r@) == aged_keys(old(times).keys(), old(times)@, now, age),
        final(times).keys() == young_keys(old(times).keys(), old(times)@, now, age),
        final(times)@ == young_entries(old(times)@, now, age),
{
    let ghost keys = times.keys();
    let ghost all = times@;
    let ghost mut done: int = 0;
    let mut r: Vec<String> = Vec::new();
    let mut i: usize = 0;
    proof {
        reveal(Seq::filter);
        assert(keys.skip(0) =~= keys);
        assert(keys.take(0) =~= Seq::<Seq<char>>::empty());
        times.lemma_domain();
    }
    while i < times.len()
        invariant
            times.wf(),
            0 <= done <= keys.len(),
            keys.no_duplicates(),
            forall|j: int| 0 <= j < keys.len() ==> all.contains_key(#[trigger] keys[j]),
            i == young_keys(keys.take(done), all, now, age).len(),
            times.keys() =~= young_keys(keys.take(done), all, now, age) + keys.skip(done),
            crate::globs::texts(r@) =~= aged_keys(keys.take(done), all, now, age),
            forall|k: Seq<char>| #[trigger]
                times@.contains_key(k) <==> all.contains_key(k) && !aged_keys(
                    keys.take(done),
                    all,
                    now,
                    age,
                ).contains(k),
            forall|k: Seq<char>| #[trigger] times@.contains_key(k) ==> times@[k] == all[k],
        decreases keys.len() - done,
    {
        let ghost k = keys[done];
        let ghost old_ready = aged_keys(keys.take(done), all, now, age);
        let ghost before = *times;
        proof {
            let next = keys.take(done + 1);
            reveal(Seq::filter);
            assert(next.drop_last() =~= keys.take(done));
            assert(next.last() == k);
            assert(times.keys()[i as int] == k);
            assert(keys.skip(done).skip(1) =~= keys.skip(done + 1));
            assert(keys.skip(done) =~= seq![k] + keys.skip(done + 1));
        }
        let ts: u128 = *times.value_at(i);
        assert(ts == all[k]);
        if now >= ts && now - ts >= age {
            let (path, _ts) = times.remove_at(i);
            let ghost sofar = crate::globs::texts(r@);
            r.push(path);
            proof {
                assert(crate::globs::texts(r@) =~= sofar.push(k));
                assert(aged_keys(keys.take(done + 1), all, now, age) == old_ready.push(k));
                assert forall|x: Seq<char>| #[trigger]
                    times@.contains_key(x) <==> all.contains_key(x) && !aged_keys(
                        keys.take(done + 1),
                        all,
                        now,
                        age,
                    ).contains(x) by {
                    assert(before@.contains_key(x) <==> all.contains_key(x)
                        && !old_ready.contains(x));
                    if old_ready.contains(x) {
                        let j = choose|j: int| 0 <= j < old_ready.len() && old_ready[j] == x;
                        assert(old_ready.push(k)[j] == x);
                    }
                    if old_ready.push(k).contains(x) && x != k {
                        let j = choose|j: int|
                            0 <= j < old_ready.push(k).len() && old_ready.push(k)[j] == x;
                        assert(old_ready[j] == x);
                    }
                    assert(old_ready.push(k)[old_ready.len() as int] == k);
                }
            }
        } else {
            proof {
                assert(young_keys(keys.take(done + 1), all, now, age) == young_keys(
                    keys.take(done),
                    all,
                    now,
                    age,
                ).push(k));
                assert(aged_keys(keys.take(done + 1), all, now, age) == old_ready);
            }
            i = i + 1;
        }
        proof {
            done = done + 1;
        }
    }
    proof {
        assert(done == keys.len());
        assert(keys.take(done) =~= keys);
        assert forall|k: Seq<char>| #[trigger]
            times@.contains_key(k) == young_entries(all, now, age).contains_key(k) by {
            lemma_aged_keys_contain(keys, all, now, age, k);
            old(times).lemma_domain();
            assert(all.contains_key(k) <==> keys.contains(k));
        }
        assert(times@ =~= young_entries(all, now, age));
    }
    r
}

/// The old keys are those that are old.
proof fn lemma_aged_keys_contain(
    keys: Seq<Seq<char>>,
    times: Map<Seq<char>, u128>,
    now: u128,
    age: u128,
    k: Seq<char>,
)
    ensures
        aged_keys(keys, times, now, age).contains(k) <==> keys.contains(k) && aged(
            times[k],
            now,
            age,
        ),
{
    let p = |k: Seq<char>| aged(times[k], now, age);
    if keys.contains(k) && p(k) {
        let i = choose|i: int| 0 <= i < keys.len() && keys[i] == k;
        keys.lemma_filter_contains(p, i);
    }
    if keys.filter(p).contains(k) {
        let i = choose|i: int| 0 <= i < keys.filter(p).len() && keys.filter(p)[i] == k;
        keys.lemma_filter_pred(p, i);
        keys.lemma_filter_contains_rev(p, k);
    }
}

/// Holds events back until their path has been quiet for a time window.
pub struct Debouncer {
    window: u128,
    pending: OrderedMap<u128>,
}

/// What a [`Debouncer`] holds.
#[verifier::ext_equal]
pub struct PendingModel {
    /// How long a path has to be quiet.
    pub window: u128,
    /// The paths with a pending event, in the order of their first one.
    pub paths: Seq<Seq<char>>,
    /// The time of the latest event of each.
    pub times: Map<Seq<char>, u128>,
}

impl View for Debouncer {
    type V = PendingModel;

    closed spec fn view(&self) -> PendingModel {
        PendingModel {
            window: self.window,
            paths: self.pending.keys(),
            times: self.pending@,
        }
    }
}

/// A window of no time is replaced by the shortest one.
pub open spec fn clamped_window(window: u128) -> u128 {
    if window == 0 {
        MIN_WINDOW
    } else {
        window
    }
}

/// The pending events after another one of `path` at the time `t`: of two
/// events of a path the later one counts.
pub open spec fn with_event(m: PendingModel, path: Seq<char>, t: u128) -> PendingModel {
    PendingModel {
        paths: crate::ordered::with_key(m.paths, path),
        times: m.times.insert(
            path,
            if m.times.contains_key(path) && m.times[path] > t {
                m.times[path]
            } else {
                t
            },
        ),
        ..m
    }
}

/// How long an event at `ts` has to wait at the time `now`.  An event that lies
/// ahead has the whole window before it.
pub open spec fn wait_for(ts: u128, now: u128, window: u128) -> u128 {
    if now < ts {
        window
    } else if now - ts >= window {
        0
    } else {
        (window - (now - ts)) as u128
    }
}

impl Debouncer {
    /// The debouncer is well-formed.
    pub closed spec fn wf(&self) -> bool {
        &&& self.pending.wf()
        &&& self.window > 0
    }

    /// In a well-formed debouncer the window takes some time, no path is listed
    /// twice and the paths listed are the ones with a time.
    pub proof fn lemma_wf(&self)
        requires
            self.wf(),
        ensures
            self@.window > 0,
            self@.paths.no_duplicates(),
            forall|k: Seq<char>| #[trigger]
                self@.times.contains_key(k) <==> self@.paths.contains(k),
    {
        self.pending.lemma_domain();
    }

    /// A debouncer without events.  A window of no time is raised to
    /// [`MIN_WINDOW`], since it would disable debouncing.
    pub fn new(window: u128) -> (d: Self)
        ensures
            d.wf(),
            d@ == (PendingModel {
                window: clamped_window(window),
                paths: Seq::empty(),
                times: Map::empty(),
            }),
    {
        Debouncer {
            window: if window == 0 {
                MIN_WINDOW
            } else {
                window
            },
            pending: OrderedMap::new(),
        }
    }

    /// How long a path has to be quiet.
    pub fn window(&self) -> (w: u128)
        ensures
            w == self@.window,
    {
        self.window
    }

    /// The number of paths with a pending event.
    pub fn pending_len(&self) -> (n: usize)
        ensures
            n == self@.paths.len(),
    {
        self.pending.len()
    }

    /// Adds an event.  Of the events of a path the latest counts.
    pub fn add_event(&mut self, path: String, event_time: u128)
        requires
            old(self).wf(),
        ensures
            final(self).wf(),
            final(self)@ == with_event(old(self)@, path@, event_time),
    {
        let latest: u128 = match self.pending.get(path.as_str()) {
            Some(t) => {
                if *t > event_time {
                    *t
                } else {
                    event_time
                }
            },
            None => event_time,
        };
        self.pending.insert(path, latest);
    }

    /// Takes out the events whose path has been quiet for the window, and
    /// returns their paths.
    pub fn drain_ready(&mut self, now: u128) -> (ready: Vec<String>)
        requires
            old(self).wf(),
        ensures
            final(self).wf(),
            crate::globs::texts(ready@) == aged_keys(
                old(self)@.paths,
                old(self)@.times,
                now,
                old(self)@.window,
            ),
            final(self)@ == (PendingModel {
                window: old(self)@.window,
                paths: young_keys(old(self)@.paths, old(self)@.times, now, old(self)@.window),
                times: young_entries(old(self)@.times, now, old(self)@.window),
            }),
    {
        let window: u128 = self.window;
        take_aged(&mut self.pending, now, window)
    }

    /// How long to wait for the next event to be ready: the shortest of the
    /// pending events' waiting times.  `None` if nothing is pending.
    pub fn next_timeout(&self, now: u128) -> (r: Option<u128>)
        requires
            self.wf(),
        ensures
            r is None <==> self@.paths.len() == 0,
            r is Some ==> {
                &&& exists|i: int|
                    0 <= i < self@.paths.len() && r->0 == wait_for(
                        self@.times[#[trigger] self@.paths[i]],
                        now,
                        self@.window,
                    )
                &&& forall|i: int|
                    0 <= i < self@.paths.len() ==> r->0 <= wait_for(
                        self@.times[#[trigger] self@.paths[i]],
                        now,
                        self@.window,
                    )
            },
    {
        if self.pending.len() == 0 {
            return None;
        }
        let mut best: u128 = self.window;
        let mut i: usize = 0;
        let ghost mut at: int = 0;
        while i < self.pending.len()
            invariant
                self.wf(),
                i <= self@.paths.len(),
                self@.paths.len() > 0,
                self@.paths == self.pending.keys(),
                self@.times == self.pending@,
                self@.window == self.window,
                best <= self.window,
                i == 0 ==> best == self.window,
                i > 0 ==> 0 <= at < i && best == wait_for(
                    self@.times[self@.paths[at]],
                    now,
                    self@.window,
                ),
                forall|j: int|
                    0 <= j < i ==> best <= wait_for(
                        self@.times[#[trigger] self@.paths[j]],
                        now,
                        self@.window,
                    ),
            decreases self@.paths.len() - i,
        {
            let ts: u128 = *self.pending.value_at(i);
            let wait: u128 = if now < ts {
                self.window
            } else if now - ts >= self.window {
                0
            } else {
                self.window - (now - ts)
            };
            assert(wait == wait_for(self@.times[self@.paths[i as int]], now, self@.window));
            if i == 0 || wait < best {
                best = wait;
                proof {
                    at = i as int;
                }
            }
            i = i + 1;
        }
        assert(best == wait_for(self@.times[self@.paths[at]], now, self@.window));
        Some(best)
    }
}

/// An event is never lost: every pending path is either taken out as ready or
/// stays pending with its time, and none is both.
pub proof fn law_drained_or_pending(m: PendingModel, now: u128, path: Seq<char>)
    requires
        m.paths.no_duplicates(),
        m.times.contains_key(path),
        m.paths.contains(path),
    ensures
        aged_keys(m.paths, m.times, now, m.window).contains(path) != young_entries(
            m.times,
            now,
            m.window,
        ).contains_key(path),
        young_entries(m.times, now, m.window).contains_key(path) ==> young_entries(
            m.times,
            now,
            m.window,
        )[path] == m.times[path],
{
    lemma_aged_keys_contain(m.paths, m.times, now, m.window, path);
}

/// A path is ready exactly when it has been quiet for the window: another event
/// starts the wait anew.
pub proof fn law_event_restarts_window(m: PendingModel, path: Seq<char>, t: u128, now: u128)
    requires
        m.window > 0,
        t <= now,
        m.times.contains_key(path) ==> m.times[path] <= t,
    ensures
        aged(with_event(m, path, t).times[path], now, m.window) <==> now - t >= m.window,
{
}

/// Waiting as long as [`Debouncer::next_timeout`] says makes the event with the
/// shortest wait ready, unless its time lies ahead.
pub proof fn law_waiting_makes_ready(ts: u128, now: u128, window: u128)
    requires
        ts <= now,
        now + wait_for(ts, now, window) <= u128::MAX,
    ensures
        aged(ts, (now + wait_for(ts, now, window)) as u128, window),
{
}

/// Something is old once its age has passed since it happened.
pub proof fn law_age(ts: u128, now: u128, age: u128)
    ensures
        aged(ts, now, age) <==> ts + age <= now,
{
}

/// The waiting time of an event is exact: until it is over the event is not ready, and from
/// then on it is.  An event that lies ahead has the whole window before it.
pub proof fn law_waiting_time_is_exact(ts: u128, now: u128, later: u128, window: u128)
    ensures
        ts <= now <= later ==> (ts + window <= later <==> now + wait_for(ts, now, window) <= later),
        now < ts ==> wait_for(ts, now, window) == window,
        wait_for(ts, now, window) <= window,
{
}

/// Of two events of a path the later one counts, and the other paths keep theirs.  A new path
/// comes after those that are pending.
pub proof fn law_later_event_counts(m: PendingModel, path: Seq<char>, t: u128, other: Seq<char>)
    requires
        other != path,
    ensures
        ({
            let r = with_event(m, path, t);
            &&& r.window == m.window
            &&& r.times.contains_key(path)
            &&& r.times[path] >= t
            &&& m.times.contains_key(path) ==> r.times[path] >= m.times[path] && (r.times[path] == t
                || r.times[path] == m.times[path])
            &&& !m.times.contains_key(path) ==> r.times[path] == t
            &&& r.times.contains_key(other) == m.times.contains_key(other)
            &&& m.times.contains_key(other) ==> r.times[other] == m.times[other]
            &&& m.paths.contains(path) ==> r.paths == m.paths
            &&& !m.paths.contains(path) ==> r.paths == m.paths.push(path)
        }),
{
}

/// The old and the young keys are told apart one by one, and both stay in order.
pub proof fn law_keys_are_told_apart_in_order(
    keys: Seq<Seq<char>>,
    k: Seq<char>,
    times: Map<Seq<char>, u128>,
    now: u128,
    age: u128,
)
    ensures
        times[k] + age <= now ==> aged_keys(keys.push(k), times, now, age) == aged_keys(
            keys,
            times,
            now,
            age,
        ).push(k) && young_keys(keys.push(k), times, now, age) == young_keys(
            keys,
            times,
            now,
            age,
        ),
        times[k] + age > now ==> aged_keys(keys.push(k), times, now, age) == aged_keys(
            keys,
            times,
            now,
            age,
        ) && young_keys(keys.push(k), times, now, age) == young_keys(keys, times, now, age).push(k),
        aged_keys(Seq::empty(), times, now, age) == Seq::<Seq<char>>::empty(),
        young_keys(Seq::empty(), times, now, age) == Seq::<Seq<char>>::empty(),
{
    reveal(Seq::filter);
    assert(keys.push(k).drop_last() =~= keys);
}

/// What is left after the old entries were taken out are the young ones, as they were.
pub proof fn law_young_entries_stay(
    times: Map<Seq<char>, u128>,
    now: u128,
    age: u128,
    k: Seq<char>,
)
    ensures
        young_entries(times, now, age).contains_key(k) <==> times.contains_key(k) && times[k] + age
            > now,
        young_entries(times, now, age).contains_key(k) ==> young_entries(times, now, age)[k]
            == times[k],
{
}

/// A window of no time is raised to a millisecond, and any other is taken as it is.
pub proof fn law_window_takes_some_time(window: u128)
    ensures
        window > 0 ==> clamped_window(window) == window,
        window == 0 ==> clamped_window(window) == 1_000_000,
{
}

/// The young keys are those that are young.
pub proof fn law_young_keys_are_young(
    keys: Seq<Seq<char>>,
    times: Map<Seq<char>, u128>,
    now: u128,
    age: u128,
    k: Seq<char>,
)
    ensures
        young_keys(keys, times, now, age).contains(k) <==> keys.contains(k) && times[k] + age > now,
{
    let p = |k: Seq<char>| !aged(times[k], now, age);
    if keys.contains(k) && p(k) {
        let i = choose|i: int| 0 <= i < keys.len() && keys[i] == k;
        keys.lemma_filter_contains(p, i);
    }
    if keys.filter(p).contains(k) {
        let i = choose|i: int| 0 <= i < keys.filter(p).len() && keys.filter(p)[i] == k;
        keys.lemma_filter_pred(p, i);
        keys.lemma_filter_contains_rev(p, k);
    }
}

} // verus!
