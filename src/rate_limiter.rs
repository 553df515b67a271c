//! Per-domain admission control. The sliding-window limiter and the token
//! bucket decide; the caller reads the clock (milliseconds, monotonic) and
//! does the sleeping.
use vstd::prelude::*;
use crate::text::{chars_of, chars_equal};

verus! {

/// Length of the sliding window, in milliseconds.
pub const WINDOW_MS: u64 = 60_000;

/// Extra wait added past the moment the oldest request leaves the window.
pub const WAIT_MARGIN_MS: u64 = 100;

/// Token amounts are kept in units of 1/60000 token, so that a rate of `n`
/// tokens per minute refills exactly `n` units per millisecond.
pub const UNITS_PER_TOKEN: u64 = 60_000;

/// Milliseconds from `then` to `now`, zero when `now` is earlier.
pub open spec fn since(now: u64, then: u64) -> nat {
    if now >= then {
        (now - then) as nat
    } else {
        0
    }
}

fn since_exec(now: u64, then: u64) -> (r: u64)
    ensures
        r == since(now, then),
{
    if now >= then {
        now - then
    } else {
        0
    }
}

/// The timestamps still inside the window that ends at `now`, in order.
pub open spec fn pruned(times: Seq<u64>, now: u64, window: u64) -> Seq<u64>
    decreases times.len(),
{
    if times.len() == 0 {
        Seq::empty()
    } else {
        let p = pruned(times.drop_last(), now, window);
        if since(now, times.last()) < window {
            p.push(times.last())
        } else {
            p
        }
    }
}

pub struct DomainLimit {
    pub max_requests: u32,
    pub window_duration: u64,
    pub request_times: Vec<u64>,
}

/// Position of the first entry for `domain`.
pub open spec fn entry_index<T>(entries: Seq<(String, T)>, domain: Seq<char>) -> Option<int> {
    if exists|k: int| 0 <= k < entries.len() && #[trigger] entries[k].0@ == domain {
        Some(
            choose|k: int|
                0 <= k < entries.len() && #[trigger] entries[k].0@ == domain && forall|j: int|
                    0 <= j < k ==> #[trigger] entries[j].0@ != domain,
        )
    } else {
        None
    }
}

/// Entries name distinct domains.
pub open spec fn keys_unique<T>(entries: Seq<(String, T)>) -> bool {
    forall|i: int, j: int| 0 <= i < j < entries.len() ==> #[trigger] entries[i].0@ != #[trigger] entries[j].0@
}

/// Position of the entry for `domain`.
pub fn find_entry<T>(entries: &Vec<(String, T)>, domain: &str) -> (r: Option<usize>)
    ensures
        r is None <==> entry_index(entries@, domain@) is None,
        r is Some ==> entry_index(entries@, domain@) == Some(r->0 as int) && r->0 < entries@.len(),
{
    let target = chars_of(domain);
    let mut i: usize = 0;
    while i < entries.len()
        invariant
            i <= entries@.len(),
            target@ == domain@,
            forall|j: int| 0 <= j < i ==> #[trigger] entries@[j].0@ != domain@,
        decreases entries@.len() - i,
    {
        let here = chars_of(entries[i].0.as_str());
        if chars_equal(&here, &target) {
            proof {
                let k = entry_index(entries@, domain@);
                assert(entries@[i as int].0@ == domain@);
                assert(k == Some(i as int)) by {
                    let c = k->0;
                    if c < i {
                        assert(entries@[c].0@ != domain@);
                    } else if c > i {
                        assert(entries@[i as int].0@ != domain@);
                    }
                }
            }
            return Some(i);
        }
        i += 1;
    }
    assert(!exists|k: int| 0 <= k < entries@.len() && #[trigger] entries@[k].0@ == domain@);
    None
}

/// The timestamps of `times` still inside the window ending at `now`.
fn pruned_copy(times: &Vec<u64>, now: u64, window: u64) -> (r: Vec<u64>)
    ensures
        r@ == pruned(times@, now, window),
{
    let ghost s = times@;
    let mut kept: Vec<u64> = Vec::new();
    let mut i: usize = 0;
    while i < times.len()
        invariant
            times@ == s,
            i <= s.len(),
            kept@ == pruned(s.take(i as int), now, window),
        decreases s.len() - i,
    {
        assert(s.take(i + 1).drop_last() =~= s.take(i as int));
        if since_exec(now, times[i]) < window {
            kept.push(times[i]);
        }
        i += 1;
    }
    assert(s.take(s.len() as int) =~= s);
    kept
}

pub proof fn lemma_pruned_len(times: Seq<u64>, now: u64, window: u64)
    ensures
        pruned(times, now, window).len() <= times.len(),
        forall|i: int| 0 <= i < pruned(times, now, window).len() ==> since(now, #[trigger] pruned(times, now, window)[i]) < window,
    decreases times.len(),
{
    if times.len() > 0 {
        lemma_pruned_len(times.drop_last(), now, window);
    }
}

/// Sliding-window limiter, one entry per domain created on first use.
pub struct RateLimiter {
    pub limits: Vec<(String, DomainLimit)>,
    pub default_rate: u32,
}

/// The entry for a domain that a limiter creates on first use.
pub open spec fn fresh_limit(rate: u32) -> (u32, u64, Seq<u64>) {
    (rate, WINDOW_MS, Seq::empty())
}

/// `(max_requests, window_duration, request_times)` of an entry.
pub open spec fn limit_view(l: DomainLimit) -> (u32, u64, Seq<u64>) {
    (l.max_requests, l.window_duration, l.request_times@)
}

/// The state of `domain` before a call: its entry, or a fresh one.
pub open spec fn state_of(rl: RateLimiter, domain: Seq<char>) -> (u32, u64, Seq<u64>) {
    match entry_index(rl.limits@, domain) {
        Some(k) => limit_view(rl.limits@[k].1),
        None => fresh_limit(rl.default_rate),
    }
}

/// The state of `domain` after a call, which has an entry by then.
pub open spec fn entry_of(rl: RateLimiter, domain: Seq<char>) -> (u32, u64, Seq<u64>) {
    limit_view(rl.limits@[entry_index(rl.limits@, domain)->0].1)
}

/// How long to wait before a request may go out: until the oldest request
/// in the window leaves it, plus a margin.
pub open spec fn wait_needed(max: u32, window: u64, live: Seq<u64>, now: u64) -> Option<nat> {
    if live.len() >= max && live.len() > 0 {
        Some((window - since(now, live[0]) + WAIT_MARGIN_MS) as nat)
    } else {
        None
    }
}

pub proof fn lemma_entry_index_at<T>(e: Seq<(String, T)>, d: Seq<char>, k: int)
    requires
        keys_unique(e),
        0 <= k < e.len(),
        e[k].0@ == d,
    ensures
        entry_index(e, d) == Some(k),
{
    assert(exists|k: int| 0 <= k < e.len() && #[trigger] e[k].0@ == d);
    let c = entry_index(e, d)->0;
    if c != k {
        if c < k {
            assert(e[c].0@ != e[k].0@);
        } else {
            assert(e[k].0@ != e[c].0@);
        }
    }
}

proof fn lemma_same_keys_unique<T>(a: Seq<(String, T)>, b: Seq<(String, T)>, i: int)
    requires
        keys_unique(a),
        same_keys_but(a, b, i),
    ensures
        keys_unique(b),
{
    assert forall|x: int, y: int| 0 <= x < y < b.len() implies #[trigger] b[x].0@ != #[trigger] b[y].0@ by {
        assert(a[x].0@ == b[x].0@ && a[y].0@ == b[y].0@);
    }
}

/// Entries keep their keys; only the one at `i` may change its value.
pub open spec fn same_keys_but<T>(a: Seq<(String, T)>, b: Seq<(String, T)>, i: int) -> bool {
    &&& a.len() == b.len()
    &&& forall|k: int| 0 <= k < a.len() ==> (#[trigger] a[k]).0@ == b[k].0@
    &&& forall|k: int| 0 <= k < a.len() && k != i ==> #[trigger] a[k] == b[k]
}

proof fn lemma_update_keeps_others<T>(a: Seq<(String, T)>, b: Seq<(String, T)>, i: int, d: Seq<char>)
    requires
        keys_unique(a),
        0 <= i < a.len(),
        same_keys_but(a, b, i),
        d != a[i].0@,
    ensures
        keys_unique(b),
        entry_index(b, d) == entry_index(a, d),
        entry_index(a, d) is Some ==> b[entry_index(a, d)->0] == a[entry_index(a, d)->0],
{
    assert forall|x: int, y: int| 0 <= x < y < b.len() implies #[trigger] b[x].0@ != #[trigger] b[y].0@ by {
        assert(a[x].0@ == b[x].0@ && a[y].0@ == b[y].0@);
    }
    match entry_index(a, d) {
        Some(k) => {
            assert(a[k].0@ == d);
            assert(b[k].0@ == d);
            lemma_entry_index_at(b, d, k);
        },
        None => {
            if exists|k: int| 0 <= k < b.len() && #[trigger] b[k].0@ == d {
                let k = choose|k: int| 0 <= k < b.len() && #[trigger] b[k].0@ == d;
                assert(a[k].0@ == d);
            }
        },
    }
}

impl RateLimiter {
    /// Domains without an entry are admitted `default_rate_per_minute`
    /// times per window.
    pub fn new(default_rate_per_minute: u32) -> (r: Self)
        ensures
            r.wf(),
            r.limits@.len() == 0,
            r.default_rate == default_rate_per_minute,
    {
        RateLimiter { limits: Vec::new(), default_rate: default_rate_per_minute }
    }

    /// Domains are distinct and every window is `WINDOW_MS`.
    pub open spec fn wf(&self) -> bool {
        &&& keys_unique(self.limits@)
        &&& forall|k: int| 0 <= k < self.limits@.len() ==> (#[trigger] self.limits@[k]).1.window_duration == WINDOW_MS
    }

    /// Position of the entry for `domain`, created fresh when missing; the
    /// state of every domain stays what it was.
    fn entry_for(&mut self, domain: &str) -> (i: usize)
        requires
            old(self).wf(),
        ensures
            final(self).wf(),
            final(self).default_rate == old(self).default_rate,
            i < final(self).limits@.len(),
            entry_index(final(self).limits@, domain@) == Some(i as int),
            final(self).limits@[i as int].0@ == domain@,
            forall|d: Seq<char>| #[trigger] state_of(*final(self), d) == state_of(*old(self), d),
    {
        match find_entry(&self.limits, domain) {
            Some(i) => {
                assert(self.limits@[i as int].0@ == domain@);
                i
            },
            None => {
                let ghost a = self.limits@;
                let key = domain.to_owned();
                self.limits.push((key, DomainLimit { max_requests: self.default_rate, window_duration: WINDOW_MS, request_times: Vec::new() }));
                let ghost b = self.limits@;
                let i = self.limits.len() - 1;
                proof {
                    assert forall|x: int, y: int| 0 <= x < y < b.len() implies #[trigger] b[x].0@ != #[trigger] b[y].0@ by {
                        if y == b.len() - 1 {
                            assert(b[x] == a[x]);
                            if a[x].0@ == domain@ {
                                assert(exists|k: int| 0 <= k < a.len() && #[trigger] a[k].0@ == domain@);
                            }
                        } else {
                            assert(b[x] == a[x] && b[y] == a[y]);
                        }
                    }
                    lemma_entry_index_at(b, domain@, i as int);
                    assert(limit_view(b[i as int].1) =~= fresh_limit(self.default_rate));
                    assert forall|d: Seq<char>| #[trigger] state_of(*self, d) == state_of(*old(self), d) by {
                        if d != domain@ {
                            match entry_index(a, d) {
                                Some(k) => {
                                    assert(a[k].0@ == d);
                                    assert(b[k] == a[k]);
                                    lemma_entry_index_at(b, d, k);
                                },
                                None => {
                                    if exists|k: int| 0 <= k < b.len() && #[trigger] b[k].0@ == d {
                                        let k = choose|k: int| 0 <= k < b.len() && #[trigger] b[k].0@ == d;
                                        assert(b[k] == a[k]);
                                    }
                                },
                            }
                        }
                    }
                }
                i
            },
        }
    }

    /// Replaces the value of the entry at `i`.
    fn put_limit(&mut self, i: usize, limit: DomainLimit)
        requires
            old(self).wf(),
            i < old(self).limits@.len(),
            limit.window_duration == WINDOW_MS,
        ensures
            final(self).wf(),
            final(self).default_rate == old(self).default_rate,
            same_keys_but(old(self).limits@, final(self).limits@, i as int),
            final(self).limits@[i as int].1 == limit,
            forall|d: Seq<char>| d != old(self).limits@[i as int].0@ ==> #[trigger] state_of(*final(self), d) == state_of(*old(self), d),
            entry_index(final(self).limits@, old(self).limits@[i as int].0@) == Some(i as int),
    {
        let ghost a = self.limits@;
        let (key, _old_limit) = self.limits.remove(i);
        self.limits.insert(i, (key, limit));
        let ghost b = self.limits@;
        proof {
            assert(same_keys_but(a, b, i as int));
            assert forall|d: Seq<char>| d != a[i as int].0@ implies #[trigger] state_of(*self, d) == state_of(*old(self), d) by {
                lemma_update_keeps_others(a, b, i as int, d);
            }
            assert(keys_unique(b)) by {
                assert forall|x: int, y: int| 0 <= x < y < b.len() implies #[trigger] b[x].0@ != #[trigger] b[y].0@ by {
                    assert(a[x].0@ == b[x].0@ && a[y].0@ == b[y].0@);
                }
            }
            lemma_entry_index_at(b, a[i as int].0@, i as int);
        }
    }

    /// First half of an admission at `now`: drops the timestamps that left
    /// the window, then either records `now` and returns `None` (go ahead),
    /// or returns how many milliseconds to sleep before `finish_wait`. An
    /// immediate admission leaves at most `max + 1` requests (only `max`
    /// unless `max` is zero) in the window ending at `now`.
    pub fn wait_if_needed(&mut self, domain: &str, now: u64) -> (r: Option<u64>)
        requires
            old(self).wf(),
        ensures
            final(self).wf(),
            final(self).default_rate == old(self).default_rate,
            ({
                let (max, window, times) = state_of(*old(self), domain@);
                let live = pruned(times, now, window);
                &&& r == match wait_needed(max, window, live, now) {
                    Some(w) => Some(w as u64),
                    None => None::<u64>,
                }
                &&& entry_of(*final(self), domain@) == (max, window, if r is None { live.push(now) } else { live })
                &&& r is None ==> live.len() < max || live.len() == 0
            }),
            entry_index(final(self).limits@, domain@) is Some,
            r is None ==> entry_of(*final(self), domain@).2.len() <= state_of(*old(self), domain@).0 + 1,
            forall|i: int| 0 <= i < entry_of(*final(self), domain@).2.len() ==> since(now, #[trigger] entry_of(*final(self), domain@).2[i]) < WINDOW_MS || entry_of(*final(self), domain@).2[i] == now,
            forall|d: Seq<char>| d != domain@ ==> #[trigger] state_of(*final(self), d) == state_of(*old(self), d),
    {
        let i = self.entry_for(domain);
        let ghost before = state_of(*self, domain@);
        assert(before == limit_view(self.limits@[i as int].1));
        let max = self.limits[i].1.max_requests;
        let window = self.limits[i].1.window_duration;
        let mut times = pruned_copy(&self.limits[i].1.request_times, now, window);
        proof {
            lemma_pruned_len(self.limits@[i as int].1.request_times@, now, window);
        }
        let n = times.len();
        let mut wait: Option<u64> = None;
        if n >= max as usize && n > 0 {
            let oldest = times[0];
            let e = since_exec(now, oldest);
            wait = Some(window - e + WAIT_MARGIN_MS);
        }
        if wait.is_none() {
            times.push(now);
        }
        let ghost new_times = times@;
        self.put_limit(i, DomainLimit { max_requests: max, window_duration: window, request_times: times });
        assert(entry_of(*self, domain@) == (max, window, new_times));
        wait
    }

    /// Second half of a delayed admission, after the sleep: drops the
    /// timestamps that left the window and records `now`.
    pub fn finish_wait(&mut self, domain: &str, now: u64)
        requires
            old(self).wf(),
        ensures
            final(self).wf(),
            final(self).default_rate == old(self).default_rate,
            ({
                let (max, window, times) = state_of(*old(self), domain@);
                entry_of(*final(self), domain@) == (max, window, pruned(times, now, window).push(now))
            }),
            entry_index(final(self).limits@, domain@) is Some,
            forall|d: Seq<char>| d != domain@ ==> #[trigger] state_of(*final(self), d) == state_of(*old(self), d),
    {
        let i = self.entry_for(domain);
        let ghost before = state_of(*self, domain@);
        assert(before == limit_view(self.limits@[i as int].1));
        let max = self.limits[i].1.max_requests;
        let window = self.limits[i].1.window_duration;
        let mut times = pruned_copy(&self.limits[i].1.request_times, now, window);
        times.push(now);
        let ghost new_times = times@;
        self.put_limit(i, DomainLimit { max_requests: max, window_duration: window, request_times: times });
        assert(entry_of(*self, domain@) == (max, window, new_times));
    }

    /// Sets the admissions per window of `domain` and forgets its history.
    pub fn set_domain_limit(&mut self, domain: &str, max_requests_per_minute: u32)
        requires
            old(self).wf(),
        ensures
            final(self).wf(),
            entry_index(final(self).limits@, domain@) is Some,
            entry_of(*final(self), domain@) == (max_requests_per_minute, WINDOW_MS, Seq::<u64>::empty()),
            forall|d: Seq<char>| d != domain@ ==> #[trigger] state_of(*final(self), d) == state_of(*old(self), d),
    {
        let i = self.entry_for(domain);
        proof {
            assert(self.limits@[i as int].0@ == domain@);
        }
        let limit = DomainLimit { max_requests: max_requests_per_minute, window_duration: WINDOW_MS, request_times: Vec::new() };
        self.put_limit(i, limit);
        assert(limit_view(self.limits@[i as int].1) =~= (max_requests_per_minute, WINDOW_MS, Seq::<u64>::empty()));
    }

    /// How many requests of `domain` lie in the window ending at `now`;
    /// `None` for a domain never seen.
    pub fn get_current_rate(&self, domain: &str, now: u64) -> (r: Option<usize>)
        ensures
            match entry_index(self.limits@, domain@) {
                None => r is None,
                Some(k) => r == Some(
                    pruned(self.limits@[k].1.request_times@, now, self.limits@[k].1.window_duration).len() as usize,
                ),
            },
    {
        match find_entry(&self.limits, domain) {
            None => None,
            Some(i) => {
                let limit = &self.limits[i].1;
                let mut count: usize = 0;
                let mut j: usize = 0;
                let ghost s = limit.request_times@;
                while j < limit.request_times.len()
                    invariant
                        s == limit.request_times@,
                        j <= s.len(),
                        count == pruned(s.take(j as int), now, limit.window_duration).len(),
                        count <= j,
                    decreases s.len() - j,
                {
                    assert(s.take(j + 1).drop_last() =~= s.take(j as int));
                    if since_exec(now, limit.request_times[j]) < limit.window_duration {
                        count += 1;
                    }
                    j += 1;
                }
                assert(s.take(s.len() as int) =~= s);
                Some(count)
            },
        }
    }

    /// Forgets the history of `domain`, keeping its limit.
    pub fn reset_domain(&mut self, domain: &str)
        requires
            old(self).wf(),
        ensures
            final(self).wf(),
            entry_index(old(self).limits@, domain@) is None ==> final(self).limits@ == old(self).limits@,
            entry_index(old(self).limits@, domain@) is Some ==> entry_index(final(self).limits@, domain@) is Some,
            entry_index(old(self).limits@, domain@) is Some ==> entry_of(*final(self), domain@) == (
                state_of(*old(self), domain@).0,
                state_of(*old(self), domain@).1,
                Seq::<u64>::empty(),
            ),
            forall|d: Seq<char>| d != domain@ ==> #[trigger] state_of(*final(self), d) == state_of(*old(self), d),
    {
        match find_entry(&self.limits, domain) {
            None => {},
            Some(i) => {
                let cleared = DomainLimit {
                    max_requests: self.limits[i].1.max_requests,
                    window_duration: self.limits[i].1.window_duration,
                    request_times: Vec::new(),
                };
                self.put_limit(i, cleared);
                assert(limit_view(self.limits@[i as int].1).2 =~= Seq::<u64>::empty());
            },
        }
    }

    /// A token-bucket limiter with the given rate and burst.
    pub fn with_burst_support(default_rate_per_minute: u32, burst_size: u32) -> (r: BurstRateLimiter)
        ensures
            r.buckets@.len() == 0,
            r.default_rate == default_rate_per_minute,
            r.default_burst == burst_size,
    {
        BurstRateLimiter::new(default_rate_per_minute, burst_size)
    }
}

proof fn lemma_push_keeps_others<T>(a: Seq<(String, T)>, e: (String, T), d: Seq<char>)
    requires
        keys_unique(a),
        entry_index(a, e.0@) is None,
    ensures
        keys_unique(a.push(e)),
        entry_index(a.push(e), e.0@) == Some(a.len() as int),
        d != e.0@ ==> entry_index(a.push(e), d) == entry_index(a, d),
{
    let b = a.push(e);
    assert forall|x: int, y: int| 0 <= x < y < b.len() implies #[trigger] b[x].0@ != #[trigger] b[y].0@ by {
        if y == b.len() - 1 {
            assert(b[x] == a[x]);
            if a[x].0@ == e.0@ {
                assert(exists|k: int| 0 <= k < a.len() && #[trigger] a[k].0@ == e.0@);
            }
        } else {
            assert(b[x] == a[x] && b[y] == a[y]);
        }
    }
    lemma_entry_index_at(b, e.0@, a.len() as int);
    if d != e.0@ {
        match entry_index(a, d) {
            Some(k) => {
                assert(a[k].0@ == d);
                assert(b[k] == a[k]);
                lemma_entry_index_at(b, d, k);
            },
            None => {
                if exists|k: int| 0 <= k < b.len() && #[trigger] b[k].0@ == d {
                    let k = choose|k: int| 0 <= k < b.len() && #[trigger] b[k].0@ == d;
                    assert(b[k] == a[k]);
                }
            },
        }
    }
}

/// A domain's token bucket; amounts in units of `1 / UNITS_PER_TOKEN`
/// token, the refill rate in units per millisecond.
#[derive(Clone, Copy, Debug)]
pub struct TokenBucket {
    pub capacity: u64,
    pub tokens: u64,
    pub refill_rate: u64,
    pub last_refill: u64,
}

/// Token-bucket limiter, one bucket per domain created full on first use.
pub struct BurstRateLimiter {
    pub buckets: Vec<(String, TokenBucket)>,
    pub default_rate: u32,
    pub default_burst: u32,
}

#[derive(Clone, Copy, Debug, PartialEq, Eq, Structural)]
pub enum RateLimitError {
    /// Amounts in units of `1 / UNITS_PER_TOKEN` token; the wait in
    /// milliseconds, `None` when the bucket never refills.
    InsufficientTokens { available: u64, requested: u64, wait_time: Option<u64> },
}

pub open spec fn fresh_bucket(rate: u32, burst: u32, now: u64) -> TokenBucket {
    TokenBucket {
        capacity: (burst * UNITS_PER_TOKEN) as u64,
        tokens: (burst * UNITS_PER_TOKEN) as u64,
        refill_rate: rate as u64,
        last_refill: now,
    }
}

/// The bucket of `domain` before a call at `now`.
pub open spec fn bucket_state(bl: BurstRateLimiter, domain: Seq<char>, now: u64) -> TokenBucket {
    match entry_index(bl.buckets@, domain) {
        Some(k) => bl.buckets@[k].1,
        None => fresh_bucket(bl.default_rate, bl.default_burst, now),
    }
}

/// Tokens after refilling for the time elapsed since the last refill,
/// capped at the capacity.
pub open spec fn refilled(b: TokenBucket, now: u64) -> nat {
    let t = b.tokens + since(now, b.last_refill) * b.refill_rate;
    if t <= b.capacity {
        t as nat
    } else {
        b.capacity as nat
    }
}

/// Milliseconds until `missing` units have refilled, rounded up.
pub open spec fn refill_wait(missing: nat, rate: u64) -> Option<nat> {
    if rate == 0 {
        None
    } else {
        Some(((missing + rate - 1) / (rate as int)) as nat)
    }
}

impl RateLimitError {
    /// How long a waiting caller sleeps before trying again: the reported
    /// wait plus 10 ms; `None` when the bucket never refills, so waiting
    /// cannot help.
    pub fn retry_delay_ms(&self) -> (r: Option<u64>)
        ensures
            match *self {
                RateLimitError::InsufficientTokens { wait_time, .. } => match wait_time {
                    None => r is None,
                    Some(w) => r == Some(if w <= u64::MAX - 10 { (w + 10) as u64 } else { u64::MAX }),
                },
            },
    {
        match self {
            RateLimitError::InsufficientTokens { wait_time, .. } => match wait_time {
                None => None,
                Some(w) => Some(if *w <= u64::MAX - 10 { *w + 10 } else { u64::MAX }),
            },
        }
    }
}

impl BurstRateLimiter {
    pub fn new(default_rate_per_minute: u32, default_burst: u32) -> (r: Self)
        ensures
            r.buckets@.len() == 0,
            r.default_rate == default_rate_per_minute,
            r.default_burst == default_burst,
    {
        BurstRateLimiter { buckets: Vec::new(), default_rate: default_rate_per_minute, default_burst }
    }

    /// Refills the bucket of `domain`, then takes `tokens` from it when it
    /// holds that many; otherwise reports what it holds and how long the
    /// missing part takes to refill.
    pub fn acquire(&mut self, domain: &str, tokens: u32, now: u64) -> (r: Result<(), RateLimitError>)
        requires
            keys_unique(old(self).buckets@),
        ensures
            keys_unique(final(self).buckets@),
            ({
                let b = bucket_state(*old(self), domain@, now);
                let level = refilled(b, now);
                let need = tokens * UNITS_PER_TOKEN;
                let k = entry_index(final(self).buckets@, domain@);
                &&& k is Some
                &&& level >= need ==> r is Ok && final(self).buckets@[k->0].1 == TokenBucket {
                    tokens: (level - need) as u64,
                    last_refill: now,
                    ..b
                }
                &&& level < need ==> r == Err::<(), RateLimitError>(RateLimitError::InsufficientTokens {
                    available: level as u64,
                    requested: need as u64,
                    wait_time: match refill_wait((need - level) as nat, b.refill_rate) {
                        Some(w) => Some(w as u64),
                        None => None,
                    },
                }) && final(self).buckets@[k->0].1 == TokenBucket { tokens: level as u64, last_refill: now, ..b }
            }),
            forall|d: Seq<char>| d != domain@ ==> entry_index(#[trigger] final(self).buckets@, d) == entry_index(old(self).buckets@, d)
                && (entry_index(old(self).buckets@, d) is Some ==> final(self).buckets@[entry_index(old(self).buckets@, d)->0] == old(self).buckets@[entry_index(old(self).buckets@, d)->0]),
    {
        let ghost a = self.buckets@;
        let (i, bucket) = match find_entry(&self.buckets, domain) {
            Some(i) => {
                let (key, bucket) = self.buckets.remove(i);
                self.buckets.insert(i, (key, bucket));
                assert(self.buckets@ =~= a);
                (i, bucket)
            },
            None => {
                let bucket = TokenBucket {
                    capacity: self.default_burst as u64 * UNITS_PER_TOKEN,
                    tokens: self.default_burst as u64 * UNITS_PER_TOKEN,
                    refill_rate: self.default_rate as u64,
                    last_refill: now,
                };
                let key = domain.to_owned();
                proof {
                    assert forall|d: Seq<char>| true implies (d != domain@ ==> entry_index(a.push((key, bucket)), d) == entry_index(a, d)) by {
                        lemma_push_keeps_others(a, (key, bucket), d);
                    }
                    lemma_push_keeps_others(a, (key, bucket), domain@);
                }
                self.buckets.push((key, bucket));
                (self.buckets.len() - 1, bucket)
            },
        };
        let ghost mid = self.buckets@;
        assert(bucket == bucket_state(*old(self), domain@, now));
        let elapsed = since_exec(now, bucket.last_refill);
        assert((elapsed as int) * (bucket.refill_rate as int) <= (u64::MAX as int) * (u64::MAX as int)) by (nonlinear_arith)
            requires elapsed <= u64::MAX, bucket.refill_rate <= u64::MAX;
        let added: u128 = (elapsed as u128) * (bucket.refill_rate as u128);
        let level: u64 = if added >= bucket.capacity as u128 {
            bucket.capacity
        } else if bucket.tokens as u128 + added <= bucket.capacity as u128 {
            (bucket.tokens as u128 + added) as u64
        } else {
            bucket.capacity
        };
        let need: u64 = tokens as u64 * UNITS_PER_TOKEN;
        let (next, result) = if level >= need {
            (TokenBucket { tokens: level - need, last_refill: now, ..bucket }, Ok(()))
        } else {
            let missing = need - level;
            let wait_time = if bucket.refill_rate == 0 {
                None
            } else {
                Some((missing as u128 + bucket.refill_rate as u128 - 1) as u128 / (bucket.refill_rate as u128))
            };
            let wait_time: Option<u64> = match wait_time {
                Some(w) => {
                    assert(w <= missing) by (nonlinear_arith)
                        requires w == (missing + bucket.refill_rate - 1) / (bucket.refill_rate as int), bucket.refill_rate >= 1;
                    Some(w as u64)
                },
                None => None,
            };
            (
                TokenBucket { tokens: level, last_refill: now, ..bucket },
                Err(RateLimitError::InsufficientTokens { available: level, requested: need, wait_time }),
            )
        };
        let (key, _old_bucket) = self.buckets.remove(i);
        self.buckets.insert(i, (key, next));
        proof {
            let b = self.buckets@;
            assert(same_keys_but(mid, b, i as int));
            assert forall|d: Seq<char>| d != domain@ implies entry_index(#[trigger] self.buckets@, d) == entry_index(old(self).buckets@, d)
                && (entry_index(old(self).buckets@, d) is Some ==> self.buckets@[entry_index(old(self).buckets@, d)->0] == old(self).buckets@[entry_index(old(self).buckets@, d)->0]) by {
                lemma_update_keeps_others(mid, b, i as int, d);
                if entry_index(a, d) is Some {
                    let k = entry_index(a, d)->0;
                    assert(a[k].0@ == d);
                    assert(mid[k] == a[k]);
                }
            }
            lemma_same_keys_unique(mid, b, i as int);
            lemma_entry_index_at(b, domain@, i as int);
        }
        result
    }
}

/// The shared counter key of a domain: `rate_limit:{domain}`.
pub open spec fn shared_key_of(domain: Seq<char>) -> Seq<char> {
    seq!['r', 'a', 't', 'e', '_', 'l', 'i', 'm', 'i', 't', ':'] + domain
}

/// The shared counter key of a domain.
pub fn shared_key(domain: &str) -> (r: String)
    ensures
        r@ == shared_key_of(domain@),
{
    let mut v: Vec<char> = vec!['r', 'a', 't', 'e', '_', 'l', 'i', 'm', 'i', 't', ':'];
    let mut d = chars_of(domain);
    v.append(&mut d);
    assert(v@ =~= shared_key_of(domain@));
    crate::text::string_from_chars(&v)
}

/// With a shared counter, a request backs off once the count after its own
/// increment exceeds the rate.
pub fn over_shared_limit(count: i64, rate: u32) -> (r: bool)
    ensures
        r == (count > rate as int),
{
    count > rate as i64
}

/// Seconds a shared counter lives, and the back-off once it is exceeded.
pub const SHARED_WINDOW_SECS: u64 = 60;
pub const SHARED_BACKOFF_MS: u64 = 1_000;

proof fn lemma_pruned_drops_expired(s: Seq<u64>, later: u64, window: u64, i: int)
    requires
        0 <= i < s.len(),
        since(later, s[i]) >= window,
    ensures
        pruned(s, later, window).len() < s.len(),
    decreases s.len(),
{
    lemma_pruned_len(s.drop_last(), later, window);
    if i < s.len() - 1 {
        assert(s.drop_last()[i] == s[i]);
        lemma_pruned_drops_expired(s.drop_last(), later, window, i);
    }
}

/// A delayed admission that sleeps as long as `wait_if_needed` said before
/// calling `finish_wait`, with no other admission of the domain meanwhile,
/// leaves at most `max` requests in the window: the oldest one has left it.
pub proof fn lemma_delayed_admission_within_limit(times: Seq<u64>, max: u32, now: u64, later: u64)
    requires
        forall|i: int| 0 <= i < times.len() ==> #[trigger] times[i] <= now,
        pruned(times, now, WINDOW_MS).len() <= max,
        wait_needed(max, WINDOW_MS, pruned(times, now, WINDOW_MS), now) is Some,
        later >= now + wait_needed(max, WINDOW_MS, pruned(times, now, WINDOW_MS), now)->0,
    ensures
        pruned(pruned(times, now, WINDOW_MS), later, WINDOW_MS).push(later).len() <= max,
{
    let live = pruned(times, now, WINDOW_MS);
    lemma_pruned_len(times, now, WINDOW_MS);
    lemma_pruned_members(times, now, WINDOW_MS);
    assert(live.contains(live[0]));
    assert(live[0] <= now);
    assert(since(later, live[0]) >= WINDOW_MS);
    lemma_pruned_drops_expired(live, later, WINDOW_MS, 0);
}

proof fn lemma_pruned_members(times: Seq<u64>, now: u64, window: u64)
    ensures
        forall|i: int| 0 <= i < pruned(times, now, window).len() ==> times.contains(#[trigger] pruned(times, now, window)[i]),
    decreases times.len(),
{
    if times.len() > 0 {
        let p = times.drop_last();
        lemma_pruned_members(p, now, window);
        let r = pruned(times, now, window);
        let k = pruned(p, now, window);
        assert forall|i: int| 0 <= i < r.len() implies times.contains(#[trigger] r[i]) by {
            if i < k.len() {
                assert(p.contains(k[i]));
                let a = choose|a: int| 0 <= a < p.len() && p[a] == k[i];
                assert(times[a] == r[i]);
            } else {
                assert(times[times.len() - 1] == r[i]);
            }
        }
    }
}

/// Among the first `n` admissions of `h`, how many fall in the window
/// `[start, start + WINDOW_MS)`.
pub open spec fn count_in_window(h: Seq<u64>, start: int, n: int) -> nat
    decreases n,
{
    if n <= 0 {
        0
    } else {
        count_in_window(h, start, n - 1) + if start <= h[n - 1] < start + WINDOW_MS {
            1nat
        } else {
            0nat
        }
    }
}

/// Among the first `n` admissions of `h`, how many lie less than a window
/// before admission `k`.
pub open spec fn count_recent(h: Seq<u64>, k: int, n: int) -> nat
    decreases n,
{
    if n <= 0 {
        0
    } else {
        count_recent(h, k, n - 1) + if since(h[k], h[n - 1]) < WINDOW_MS {
            1nat
        } else {
            0nat
        }
    }
}

proof fn lemma_window_within_recent(h: Seq<u64>, start: int, k: int, n: int)
    requires
        0 <= n <= k < h.len(),
        forall|i: int, j: int| 0 <= i <= j < h.len() ==> h[i] <= h[j],
        start <= h[k] < start + WINDOW_MS,
    ensures
        count_in_window(h, start, n) <= count_recent(h, k, n),
    decreases n,
{
    if n > 0 {
        lemma_window_within_recent(h, start, k, n - 1);
        assert(h[n - 1] <= h[k]);
    }
}

/// The window bound of admission control: when admissions happen in time
/// order and each one finds at most `max` earlier admissions less than a
/// window before it (what `wait_if_needed` grants at once, and what
/// `lemma_delayed_admission_within_limit` gives a caller that sleeps as
/// told), every window of `WINDOW_MS` holds at most `max + 1` admissions.
pub proof fn lemma_admissions_per_window(h: Seq<u64>, max: nat, start: int)
    requires
        forall|i: int, j: int| 0 <= i <= j < h.len() ==> h[i] <= h[j],
        forall|k: int| 0 <= k < h.len() ==> #[trigger] count_recent(h, k, k) <= max,
    ensures
        count_in_window(h, start, h.len() as int) <= max + 1,
{
    lemma_window_prefix(h, max, start, h.len() as int);
}

proof fn lemma_window_prefix(h: Seq<u64>, max: nat, start: int, n: int)
    requires
        0 <= n <= h.len(),
        forall|i: int, j: int| 0 <= i <= j < h.len() ==> h[i] <= h[j],
        forall|k: int| 0 <= k < h.len() ==> #[trigger] count_recent(h, k, k) <= max,
    ensures
        count_in_window(h, start, n) <= max + 1,
    decreases n,
{
    if n > 0 {
        lemma_window_prefix(h, max, start, n - 1);
        if start <= h[n - 1] < start + WINDOW_MS {
            lemma_window_within_recent(h, start, n - 1, n - 1);
            assert(count_recent(h, n - 1, n - 1) <= max);
        }
    }
}

} // verus!
