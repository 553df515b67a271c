//! A rotating pool of outbound proxies with failure accounting, quarantine
//! and timed recovery. Times are milliseconds on a monotonic clock that the
//! caller reads.
use vstd::prelude::*;
use vstd::multiset::Multiset;
use crate::coupon::clone_opt_string;
use crate::text::{chars_of, chars_equal};

verus! {

#[derive(Clone, Copy, Debug, PartialEq, Eq, Structural)]
pub enum ProxyType {
    Http,
    Https,
    Socks5,
}

#[derive(Debug)]
pub struct ProxyConfig {
    pub url: String,
    pub username: Option<String>,
    pub password: Option<String>,
    pub proxy_type: ProxyType,
}

impl Clone for ProxyConfig {
    fn clone(&self) -> (r: Self)
        ensures
            r == *self,
    {
        ProxyConfig {
            url: self.url.clone(),
            username: clone_opt_string(&self.username),
            password: clone_opt_string(&self.password),
            proxy_type: self.proxy_type,
        }
    }
}

/// An entry of the active queue.
#[derive(Debug)]
pub struct ProxyState {
    pub config: ProxyConfig,
    pub last_used: Option<u64>,
    pub success_count: u32,
    pub failure_count: u32,
}

/// An entry of the quarantine list.
#[derive(Debug)]
pub struct FailedProxy {
    pub config: ProxyConfig,
    pub failed_at: u64,
    pub reason: String,
}

/// Pool settings; durations in milliseconds.
#[derive(Clone, Copy, Debug)]
pub struct ProxyManagerConfig {
    pub rotation_interval: u64,
    pub max_failures: u32,
    pub retry_after: u64,
}

impl Default for ProxyManagerConfig {
    fn default() -> (r: Self)
        ensures
            r.rotation_interval == 60_000,
            r.max_failures == 3,
            r.retry_after == 300_000,
    {
        ProxyManagerConfig { rotation_interval: 60_000, max_failures: 3, retry_after: 300_000 }
    }
}

pub struct ProxyManager {
    /// Active queue, head first.
    pub proxies: Vec<ProxyState>,
    /// Quarantined entries, oldest first.
    pub failed_proxies: Vec<FailedProxy>,
    pub config: ProxyManagerConfig,
}

/// Counters of the pool; `success_rate` is in hundredths of a percent.
#[derive(Clone, Copy, Debug)]
pub struct ProxyStats {
    pub active_proxies: usize,
    pub failed_proxies: usize,
    pub total_success: u64,
    pub total_failures: u64,
    pub success_rate: u64,
}

/// A fresh active entry.
pub open spec fn fresh(c: ProxyConfig) -> ProxyState {
    ProxyState { config: c, last_used: None, success_count: 0, failure_count: 0 }
}

/// Milliseconds from `then` to `now`, zero when `now` is earlier.
pub open spec fn elapsed(now: u64, then: u64) -> nat {
    if now >= then {
        (now - then) as nat
    } else {
        0
    }
}

pub open spec fn ready_to_recover(f: FailedProxy, now: u64, retry_after: u64) -> bool {
    elapsed(now, f.failed_at) >= retry_after
}

/// Quarantined entries that are due back, oldest first.
pub open spec fn recovered(q: Seq<FailedProxy>, now: u64, retry_after: u64) -> Seq<FailedProxy>
    decreases q.len(),
{
    if q.len() == 0 {
        Seq::empty()
    } else {
        let p = recovered(q.drop_last(), now, retry_after);
        if ready_to_recover(q.last(), now, retry_after) {
            p.push(q.last())
        } else {
            p
        }
    }
}

/// Quarantined entries that stay.
pub open spec fn still_failed(q: Seq<FailedProxy>, now: u64, retry_after: u64) -> Seq<FailedProxy>
    decreases q.len(),
{
    if q.len() == 0 {
        Seq::empty()
    } else {
        let p = still_failed(q.drop_last(), now, retry_after);
        if ready_to_recover(q.last(), now, retry_after) {
            p
        } else {
            p.push(q.last())
        }
    }
}

pub open spec fn fresh_entries(q: Seq<FailedProxy>) -> Seq<ProxyState> {
    q.map_values(|f: FailedProxy| fresh(f.config))
}

/// Whether the entry may be handed out at `now`.
pub open spec fn eligible(p: ProxyState, now: u64, interval: u64) -> bool {
    p.last_used is None || elapsed(now, p.last_used->0) >= interval
}

/// The position that selection picks: the first eligible entry, or the
/// head when none is.
pub open spec fn selected_index(q: Seq<ProxyState>, now: u64, interval: u64) -> int {
    if exists|k: int| 0 <= k < q.len() && #[trigger] eligible(q[k], now, interval) {
        choose|k: int|
            0 <= k < q.len() && #[trigger] eligible(q[k], now, interval) && forall|j: int|
                0 <= j < k ==> !#[trigger] eligible(q[j], now, interval)
    } else {
        0
    }
}

/// The queue after the entry at `k` was handed out at `now`: the entries
/// before it rotated to the back, then the entry itself, stamped.
pub open spec fn rotated(q: Seq<ProxyState>, k: int, now: u64) -> Seq<ProxyState> {
    q.subrange(k + 1, q.len() as int) + q.subrange(0, k) + seq![
        ProxyState { last_used: Some(now), ..q[k] },
    ]
}

/// Position of the first active entry with this URL, if any.
pub open spec fn first_with_url(q: Seq<ProxyState>, url: Seq<char>) -> Option<int> {
    if exists|k: int| 0 <= k < q.len() && #[trigger] q[k].config.url@ == url {
        Some(
            choose|k: int|
                0 <= k < q.len() && #[trigger] q[k].config.url@ == url && forall|j: int|
                    0 <= j < k ==> #[trigger] q[j].config.url@ != url,
        )
    } else {
        None
    }
}

pub open spec fn bump(n: u32) -> u32 {
    if n < u32::MAX {
        (n + 1) as u32
    } else {
        n
    }
}

pub open spec fn active_configs(q: Seq<ProxyState>) -> Seq<ProxyConfig> {
    q.map_values(|p: ProxyState| p.config)
}

pub open spec fn failed_configs(q: Seq<FailedProxy>) -> Seq<ProxyConfig> {
    q.map_values(|f: FailedProxy| f.config)
}

/// Every configuration the pool holds, active ones first.
pub open spec fn pool_configs(m: ProxyManager) -> Seq<ProxyConfig> {
    active_configs(m.proxies@) + failed_configs(m.failed_proxies@)
}

/// The configurations of the pool, counted with multiplicity.
pub open spec fn pool_entries(m: ProxyManager) -> Multiset<ProxyConfig> {
    pool_configs(m).to_multiset()
}

proof fn lemma_recovery_partitions(q: Seq<FailedProxy>, now: u64, retry_after: u64)
    ensures
        failed_configs(recovered(q, now, retry_after)).to_multiset().add(
            failed_configs(still_failed(q, now, retry_after)).to_multiset(),
        ) == failed_configs(q).to_multiset(),
    decreases q.len(),
{
    broadcast use vstd::seq_lib::group_to_multiset_ensures;
    broadcast use vstd::multiset::group_multiset_axioms;

    if q.len() == 0 {
        assert(failed_configs(q) =~= Seq::<ProxyConfig>::empty());
        assert(failed_configs(recovered(q, now, retry_after)) =~= Seq::<ProxyConfig>::empty());
        assert(failed_configs(still_failed(q, now, retry_after)) =~= Seq::<ProxyConfig>::empty());
        assert(Multiset::<ProxyConfig>::empty().add(Multiset::empty()) =~= Multiset::empty());
    } else {
        let p = q.drop_last();
        let x = q.last();
        lemma_recovery_partitions(p, now, retry_after);
        assert(failed_configs(q) =~= failed_configs(p).push(x.config));
        let r = recovered(p, now, retry_after);
        let st = still_failed(p, now, retry_after);
        if ready_to_recover(x, now, retry_after) {
            assert(failed_configs(r.push(x)) =~= failed_configs(r).push(x.config));
            assert(failed_configs(r).push(x.config).to_multiset().add(failed_configs(st).to_multiset()) =~= failed_configs(r).to_multiset().add(failed_configs(st).to_multiset()).insert(x.config));
        } else {
            assert(failed_configs(st.push(x)) =~= failed_configs(st).push(x.config));
            assert(failed_configs(r).to_multiset().add(failed_configs(st).push(x.config).to_multiset()) =~= failed_configs(r).to_multiset().add(failed_configs(st).to_multiset()).insert(x.config));
        }
    }
}

proof fn lemma_rotation_keeps_entries(q: Seq<ProxyState>, k: int, now: u64)
    requires
        0 <= k < q.len(),
    ensures
        active_configs(rotated(q, k, now)).to_multiset() == active_configs(q).to_multiset(),
{
    broadcast use vstd::seq_lib::lemma_multiset_commutative;
    broadcast use vstd::multiset::group_multiset_axioms;

    let a = active_configs(q.subrange(0, k));
    let m = seq![q[k].config];
    let b = active_configs(q.subrange(k + 1, q.len() as int));
    assert(active_configs(q) =~= a + m + b);
    assert(active_configs(rotated(q, k, now)) =~= b + a + m);
    assert((a + m + b).to_multiset() =~= a.to_multiset().add(m.to_multiset()).add(b.to_multiset()));
    assert((b + a + m).to_multiset() =~= b.to_multiset().add(a.to_multiset()).add(m.to_multiset()));
}

fn elapsed_exec(now: u64, then: u64) -> (r: u64)
    ensures
        r == elapsed(now, then),
{
    if now >= then {
        now - then
    } else {
        0
    }
}

fn bump_exec(n: u32) -> (r: u32)
    ensures
        r == bump(n),
{
    if n < u32::MAX {
        n + 1
    } else {
        n
    }
}

/// Position of the first entry eligible at `now`, or `0` when none is.
fn first_eligible(q: &Vec<ProxyState>, now: u64, interval: u64) -> (r: usize)
    requires
        q@.len() > 0,
    ensures
        r == selected_index(q@, now, interval),
        r < q@.len(),
{
    let n = q.len();
    let mut i: usize = 0;
    while i < n
        invariant
            n == q@.len(),
            i <= n,
            forall|j: int| 0 <= j < i ==> !#[trigger] eligible(q@[j], now, interval),
        decreases n - i,
    {
        let ok = match q[i].last_used {
            None => true,
            Some(t) => elapsed_exec(now, t) >= interval,
        };
        if ok {
            proof {
                assert(eligible(q@[i as int], now, interval));
                let k = selected_index(q@, now, interval);
                assert(k == i) by {
                    if k < i {
                        assert(!eligible(q@[k], now, interval));
                    } else if k > i {
                        assert(!eligible(q@[i as int], now, interval));
                    }
                }
            }
            return i;
        }
        i += 1;
    }
    assert(!exists|k: int| 0 <= k < q@.len() && #[trigger] eligible(q@[k], now, interval));
    0
}

/// Position of the first entry with this URL.
fn find_url(q: &Vec<ProxyState>, url: &str) -> (r: Option<usize>)
    ensures
        r is None <==> first_with_url(q@, url@) is None,
        r is Some ==> first_with_url(q@, url@) == Some(r->0 as int) && r->0 < q@.len(),
{
    let target = chars_of(url);
    let mut i: usize = 0;
    while i < q.len()
        invariant
            i <= q@.len(),
            target@ == url@,
            forall|j: int| 0 <= j < i ==> #[trigger] q@[j].config.url@ != url@,
        decreases q@.len() - i,
    {
        let here = chars_of(q[i].config.url.as_str());
        if chars_equal(&here, &target) {
            proof {
                let k = first_with_url(q@, url@);
                assert(q@[i as int].config.url@ == url@);
                assert(k == Some(i as int)) by {
                    let c = k->0;
                    if c < i {
                        assert(q@[c].config.url@ != url@);
                    } else if c > i {
                        assert(q@[i as int].config.url@ != url@);
                    }
                }
            }
            return Some(i);
        }
        i += 1;
    }
    assert(!exists|k: int| 0 <= k < q@.len() && #[trigger] q@[k].config.url@ == url@);
    None
}

impl ProxyManager {
    pub fn new() -> (r: Self)
        ensures
            r.proxies@.len() == 0,
            r.failed_proxies@.len() == 0,
            r.config.rotation_interval == 60_000,
            r.config.max_failures == 3,
            r.config.retry_after == 300_000,
    {
        Self::with_config(ProxyManagerConfig::default())
    }

    pub fn with_config(config: ProxyManagerConfig) -> (r: Self)
        ensures
            r.proxies@.len() == 0,
            r.failed_proxies@.len() == 0,
            r.config == config,
    {
        ProxyManager { proxies: Vec::new(), failed_proxies: Vec::new(), config }
    }

    /// Appends a fresh entry to the active queue.
    pub fn add_proxy(&mut self, proxy_config: ProxyConfig)
        ensures
            final(self).proxies@ == old(self).proxies@.push(fresh(proxy_config)),
            final(self).failed_proxies@ == old(self).failed_proxies@,
            final(self).config == old(self).config,
            pool_entries(*final(self)) == pool_entries(*old(self)).insert(proxy_config),
    {
        let ghost c = proxy_config;
        self.proxies.push(ProxyState { config: proxy_config, last_used: None, success_count: 0, failure_count: 0 });
        proof {
            broadcast use vstd::seq_lib::lemma_multiset_commutative;
            broadcast use vstd::seq_lib::group_to_multiset_ensures;
            broadcast use vstd::multiset::group_multiset_axioms;

            let a = active_configs(old(self).proxies@);
            let f = failed_configs(old(self).failed_proxies@);
            assert(active_configs(self.proxies@) =~= a.push(c));
            assert(pool_configs(*self) =~= a.push(c) + f);
            assert((a.push(c) + f).to_multiset() =~= a.to_multiset().insert(c).add(f.to_multiset()));
            assert((a + f).to_multiset() =~= a.to_multiset().add(f.to_multiset()));
        }
    }

    /// Appends fresh entries, in order.
    pub fn add_proxies(&mut self, proxy_configs: Vec<ProxyConfig>)
        ensures
            final(self).proxies@ == old(self).proxies@ + proxy_configs@.map_values(|c: ProxyConfig| fresh(c)),
            final(self).failed_proxies@ == old(self).failed_proxies@,
            final(self).config == old(self).config,
    {
        let ghost start = self.proxies@;
        let ghost s = proxy_configs@;
        let mut rest = proxy_configs;
        while rest.len() > 0
            invariant
                rest.len() <= s.len(),
                rest@ == s.subrange(s.len() - rest.len(), s.len() as int),
                self.proxies@ == start + s.subrange(0, s.len() - rest.len()).map_values(|c: ProxyConfig| fresh(c)),
                self.failed_proxies@ == old(self).failed_proxies@,
                self.config == old(self).config,
            decreases rest.len(),
        {
            let ghost k = s.len() - rest.len();
            let c = rest.remove(0);
            self.add_proxy(c);
            assert(s.subrange(0, k + 1).map_values(|c: ProxyConfig| fresh(c)) =~= s.subrange(0, k).map_values(|c: ProxyConfig| fresh(c)).push(fresh(c)));
            assert(rest@ =~= s.subrange(s.len() - rest.len(), s.len() as int));
        }
        assert(s.subrange(0, s.len() as int) =~= s);
    }

    /// Moves every quarantined entry that is due back to the tail of the
    /// active queue, with zeroed counters.
    pub fn recover_failed_proxies(&mut self, now: u64)
        ensures
            final(self).proxies@ == old(self).proxies@ + fresh_entries(
                recovered(old(self).failed_proxies@, now, old(self).config.retry_after),
            ),
            final(self).failed_proxies@ == still_failed(old(self).failed_proxies@, now, old(self).config.retry_after),
            final(self).config == old(self).config,
            pool_entries(*final(self)) == pool_entries(*old(self)),
    {
        let ghost q = self.failed_proxies@;
        let ghost start = self.proxies@;
        let retry_after = self.config.retry_after;
        let mut rest: Vec<FailedProxy> = Vec::new();
        std::mem::swap(&mut rest, &mut self.failed_proxies);
        while rest.len() > 0
            invariant
                rest.len() <= q.len(),
                rest@ == q.subrange(q.len() - rest.len(), q.len() as int),
                retry_after == self.config.retry_after,
                self.config == old(self).config,
                self.proxies@ == start + fresh_entries(recovered(q.subrange(0, q.len() - rest.len()), now, retry_after)),
                self.failed_proxies@ == still_failed(q.subrange(0, q.len() - rest.len()), now, retry_after),
            decreases rest.len(),
        {
            let ghost k = q.len() - rest.len();
            let ghost before = recovered(q.subrange(0, k), now, retry_after);
            let f = rest.remove(0);
            assert(q.subrange(0, k + 1).drop_last() =~= q.subrange(0, k));
            assert(q.subrange(0, k + 1).last() == f);
            if elapsed_exec(now, f.failed_at) >= retry_after {
                self.proxies.push(ProxyState { config: f.config, last_used: None, success_count: 0, failure_count: 0 });
                assert(fresh_entries(before.push(f)) =~= fresh_entries(before).push(fresh(f.config)));
            } else {
                self.failed_proxies.push(f);
            }
            assert(rest@ =~= q.subrange(q.len() - rest.len(), q.len() as int));
        }
        assert(q.subrange(0, q.len() as int) =~= q);
        proof {
            broadcast use vstd::seq_lib::lemma_multiset_commutative;
            broadcast use vstd::multiset::group_multiset_axioms;

            let rec = recovered(q, now, retry_after);
            let st = still_failed(q, now, retry_after);
            lemma_recovery_partitions(q, now, retry_after);
            assert(active_configs(fresh_entries(rec)) =~= failed_configs(rec));
            assert(active_configs(start + fresh_entries(rec)) =~= active_configs(start) + failed_configs(rec));
            assert(pool_configs(*self) =~= active_configs(start) + failed_configs(rec) + failed_configs(st));
            assert(pool_configs(*old(self)) =~= active_configs(start) + failed_configs(q));
            assert((active_configs(start) + failed_configs(rec) + failed_configs(st)).to_multiset() =~= active_configs(start).to_multiset().add(failed_configs(rec).to_multiset()).add(failed_configs(st).to_multiset()));
        }
    }

    /// Recovers due entries, then hands out the first entry not used within
    /// the rotation interval (or the head when every entry was), stamps it
    /// and moves it to the tail; the entries passed over go to the tail
    /// before it. `None` when the active queue is empty.
    pub fn get_next_proxy(&mut self, now: u64) -> (r: Option<ProxyConfig>)
        ensures
            ({
                let q = old(self).proxies@ + fresh_entries(
                    recovered(old(self).failed_proxies@, now, old(self).config.retry_after),
                );
                let k = selected_index(q, now, old(self).config.rotation_interval);
                &&& final(self).failed_proxies@ == still_failed(old(self).failed_proxies@, now, old(self).config.retry_after)
                &&& final(self).config == old(self).config
                &&& q.len() == 0 ==> r is None && final(self).proxies@ == q
                &&& q.len() > 0 ==> r == Some(q[k].config) && final(self).proxies@ == rotated(q, k, now)
            }),
            pool_entries(*final(self)) == pool_entries(*old(self)),
    {
        self.recover_failed_proxies(now);
        let ghost q = self.proxies@;
        let n = self.proxies.len();
        if n == 0 {
            return None;
        }
        let interval = self.config.rotation_interval;
        let sel = first_eligible(&self.proxies, now, interval);
        let mut chosen = self.proxies.remove(sel);
        let mut t: usize = 0;
        while t < sel
            invariant
                sel < n,
                n == q.len(),
                t <= sel,
                self.proxies@ == q.subrange(t as int, sel as int) + q.subrange(sel + 1, n as int) + q.subrange(0, t as int),
                self.config == old(self).config,
                self.failed_proxies@ == still_failed(old(self).failed_proxies@, now, old(self).config.retry_after),
            decreases sel - t,
        {
            proof {
                assert(self.proxies@[0] == q[t as int]);
            }
            let x = self.proxies.remove(0);
            self.proxies.push(x);
            t += 1;
            assert(self.proxies@ =~= q.subrange(t as int, sel as int) + q.subrange(sel + 1, n as int) + q.subrange(0, t as int));
        }
        let config = chosen.config.clone();
        chosen.last_used = Some(now);
        self.proxies.push(chosen);
        assert(self.proxies@ =~= rotated(q, sel as int, now));
        proof {
            broadcast use vstd::seq_lib::lemma_multiset_commutative;

            lemma_rotation_keeps_entries(q, sel as int, now);
        }
        Some(config)
    }

    /// Counts a success for the first active entry with this URL and clears
    /// its failure count.
    pub fn mark_success(&mut self, proxy_url: &str)
        ensures
            final(self).failed_proxies@ == old(self).failed_proxies@,
            final(self).config == old(self).config,
            match first_with_url(old(self).proxies@, proxy_url@) {
                None => final(self).proxies@ == old(self).proxies@,
                Some(k) => final(self).proxies@ == old(self).proxies@.update(
                    k,
                    ProxyState {
                        success_count: bump(old(self).proxies@[k].success_count),
                        failure_count: 0,
                        ..old(self).proxies@[k]
                    },
                ),
            },
            pool_entries(*final(self)) == pool_entries(*old(self)),
    {
        let ghost q = self.proxies@;
        match find_url(&self.proxies, proxy_url) {
            Some(i) => {
                assert(first_with_url(q, proxy_url@) == Some(i as int));
                let mut entry = self.proxies.remove(i);
                entry.success_count = bump_exec(entry.success_count);
                entry.failure_count = 0;
                self.proxies.insert(i, entry);
                assert(self.proxies@ =~= q.update(i as int, entry));
                assert(active_configs(self.proxies@) =~= active_configs(q));
                assert(pool_configs(*self) =~= pool_configs(*old(self)));
            },
            None => {
                assert(first_with_url(q, proxy_url@) is None);
                assert(pool_configs(*self) =~= pool_configs(*old(self)));
            },
        }
    }

    /// Counts a failure for the first active entry with this URL; at
    /// `max_failures` the entry moves to quarantine, stamped `now`.
    pub fn mark_failure(&mut self, proxy_url: &str, reason: &str, now: u64)
        ensures
            final(self).config == old(self).config,
            match first_with_url(old(self).proxies@, proxy_url@) {
                None => final(self).proxies@ == old(self).proxies@ && final(self).failed_proxies@ == old(self).failed_proxies@,
                Some(k) => {
                    let e = old(self).proxies@[k];
                    if bump(e.failure_count) >= old(self).config.max_failures {
                        &&& final(self).proxies@ == old(self).proxies@.remove(k)
                        &&& final(self).failed_proxies@.len() == old(self).failed_proxies@.len() + 1
                        &&& final(self).failed_proxies@.drop_last() == old(self).failed_proxies@
                        &&& final(self).failed_proxies@.last().config == e.config
                        &&& final(self).failed_proxies@.last().failed_at == now
                        &&& final(self).failed_proxies@.last().reason@ == reason@
                    } else {
                        &&& final(self).proxies@ == old(self).proxies@.update(
                            k,
                            ProxyState { failure_count: bump(e.failure_count), ..e },
                        )
                        &&& final(self).failed_proxies@ == old(self).failed_proxies@
                    }
                },
            },
    {
        let ghost q = self.proxies@;
        match find_url(&self.proxies, proxy_url) {
            Some(i) => {
                assert(first_with_url(q, proxy_url@) == Some(i as int));
                let mut entry = self.proxies.remove(i);
                entry.failure_count = bump_exec(entry.failure_count);
                if entry.failure_count >= self.config.max_failures {
                    let reason_text = reason.to_owned();
                    let ghost moved = entry.config;
                    self.failed_proxies.push(FailedProxy { config: entry.config, failed_at: now, reason: reason_text });
                    proof {
                        broadcast use vstd::seq_lib::lemma_multiset_commutative;
                        broadcast use vstd::seq_lib::group_to_multiset_ensures;
                        broadcast use vstd::multiset::group_multiset_axioms;

                        let a = active_configs(q);
                        let f = failed_configs(old(self).failed_proxies@);
                        assert(moved == a[i as int]);
                        assert(active_configs(self.proxies@) =~= a.remove(i as int));
                        assert(failed_configs(self.failed_proxies@) =~= f.push(moved));
                        assert((a.remove(i as int) + f.push(moved)).to_multiset() =~= a.to_multiset().remove(moved).add(f.to_multiset().insert(moved)));
                        assert((a + f).to_multiset() =~= a.to_multiset().add(f.to_multiset()));
                        assert(a.to_multiset().count(moved) > 0) by {
                            assert(a.contains(moved));
                        }
                        assert(a.to_multiset().remove(moved).add(f.to_multiset().insert(moved)) =~= a.to_multiset().add(f.to_multiset()));
                    }
                } else {
                    self.proxies.insert(i, entry);
                    assert(self.proxies@ =~= q.update(i as int, entry));
                    assert(active_configs(self.proxies@) =~= active_configs(q));
                    assert(pool_configs(*self) =~= pool_configs(*old(self)));
                }
            },
            None => {
                assert(first_with_url(q, proxy_url@) is None);
                assert(pool_configs(*self) =~= pool_configs(*old(self)));
            },
        }
    }

    /// Sizes of both lists and the counters of the active entries.
    pub fn get_stats(&self) -> (r: ProxyStats)
        ensures
            r.active_proxies == self.proxies@.len(),
            r.failed_proxies == self.failed_proxies@.len(),
            r.total_success == min_nat(sum_success(self.proxies@), u64::MAX as nat),
            r.total_failures == min_nat(sum_failures(self.proxies@), u64::MAX as nat),
            r.success_rate == if r.total_success + r.total_failures > 0 {
                r.total_success * 10_000 / (r.total_success + r.total_failures)
            } else {
                0
            },
    {
        let mut success: u128 = 0;
        let mut failures: u128 = 0;
        let mut i: usize = 0;
        while i < self.proxies.len()
            invariant
                i <= self.proxies@.len(),
                success == sum_success(self.proxies@.take(i as int)),
                failures == sum_failures(self.proxies@.take(i as int)),
                success <= i * (u32::MAX as nat),
                failures <= i * (u32::MAX as nat),
            decreases self.proxies@.len() - i,
        {
            assert(self.proxies@.take(i + 1).drop_last() =~= self.proxies@.take(i as int));
            assert(i * (u32::MAX as nat) + u32::MAX == (i + 1) * (u32::MAX as nat)) by (nonlinear_arith);
            assert((i + 1) * (u32::MAX as nat) <= (usize::MAX as nat) * (u32::MAX as nat)) by (nonlinear_arith)
                requires i < usize::MAX;
            success = success + self.proxies[i].success_count as u128;
            failures = failures + self.proxies[i].failure_count as u128;
            i += 1;
        }
        assert(self.proxies@.take(self.proxies@.len() as int) =~= self.proxies@);
        let total_success: u64 = if success > u64::MAX as u128 { u64::MAX } else { success as u64 };
        let total_failures: u64 = if failures > u64::MAX as u128 { u64::MAX } else { failures as u64 };
        let total = total_success as u128 + total_failures as u128;
        let success_rate: u64 = if total > 0 {
            assert((total_success as int) * 10_000 / (total as int) <= 10_000) by (nonlinear_arith)
                requires total_success as int <= total as int, total > 0;
            ((total_success as u128) * 10_000 / total) as u64
        } else {
            0
        };
        ProxyStats {
            active_proxies: self.proxies.len(),
            failed_proxies: self.failed_proxies.len(),
            total_success,
            total_failures,
            success_rate,
        }
    }

    /// Adds two sample HTTP proxies, for development.
    pub fn load_free_proxies(&mut self)
        ensures
            final(self).proxies@.len() == old(self).proxies@.len() + 2,
            final(self).proxies@.subrange(0, old(self).proxies@.len() as int) == old(self).proxies@,
            final(self).failed_proxies@ == old(self).failed_proxies@,
            final(self).proxies@[old(self).proxies@.len() as int] == fresh(ProxyConfig {
                url: final(self).proxies@[old(self).proxies@.len() as int].config.url,
                username: None,
                password: None,
                proxy_type: ProxyType::Http,
            }),
            final(self).proxies@[old(self).proxies@.len() as int].config.url@ == "http://proxy1.example.com:8080"@,
            final(self).proxies@[old(self).proxies@.len() as int + 1].config.url@ == "http://proxy2.example.com:8080"@,
            final(self).proxies@[old(self).proxies@.len() as int + 1] == fresh(ProxyConfig {
                url: final(self).proxies@[old(self).proxies@.len() as int + 1].config.url,
                username: None,
                password: None,
                proxy_type: ProxyType::Http,
            }),
    {
        let first = ProxyConfig {
            url: "http://proxy1.example.com:8080".to_string(),
            username: None,
            password: None,
            proxy_type: ProxyType::Http,
        };
        let second = ProxyConfig {
            url: "http://proxy2.example.com:8080".to_string(),
            username: None,
            password: None,
            proxy_type: ProxyType::Http,
        };
        proof {
            reveal_strlit("http://proxy1.example.com:8080");
            reveal_strlit("http://proxy2.example.com:8080");
        }
        self.add_proxy(first);
        self.add_proxy(second);
        assert(self.proxies@.subrange(0, old(self).proxies@.len() as int) =~= old(self).proxies@);
    }
}

pub open spec fn min_nat(a: nat, b: nat) -> nat {
    if a <= b {
        a
    } else {
        b
    }
}

pub open spec fn sum_success(q: Seq<ProxyState>) -> nat
    decreases q.len(),
{
    if q.len() == 0 {
        0
    } else {
        sum_success(q.drop_last()) + q.last().success_count as nat
    }
}

pub open spec fn sum_failures(q: Seq<ProxyState>) -> nat
    decreases q.len(),
{
    if q.len() == 0 {
        0
    } else {
        sum_failures(q.drop_last()) + q.last().failure_count as nat
    }
}

/// How a proxy is handed to the HTTP client.
#[derive(Debug)]
pub struct ProxySetup {
    pub url: String,
    /// Whether the proxy serves HTTPS traffic (else HTTP).
    pub https: bool,
    /// User name and password, when both are given.
    pub credentials: Option<(String, String)>,
}

#[derive(Clone, Copy, Debug, PartialEq, Eq, Structural)]
pub enum ProxySetupError {
    /// The HTTP client has no SOCKS5 support.
    Socks5Unsupported,
}

impl ProxySetupError {
    pub fn message(&self) -> (r: String)
        ensures
            r@ == "SOCKS5 proxy not directly supported by reqwest"@,
    {
        proof {
            reveal_strlit("SOCKS5 proxy not directly supported by reqwest");
        }
        "SOCKS5 proxy not directly supported by reqwest".to_string()
    }
}

impl ProxyManager {
    /// HTTP and HTTPS proxies, with basic authentication when both user name
    /// and password are given; SOCKS5 is refused.
    pub fn proxy_setup(config: &ProxyConfig) -> (r: Result<ProxySetup, ProxySetupError>)
        ensures
            config.proxy_type == ProxyType::Socks5 <==> r == Err::<ProxySetup, ProxySetupError>(ProxySetupError::Socks5Unsupported),
            r is Ok ==> ({
                let p = r->Ok_0;
                &&& p.url == config.url
                &&& p.https == (config.proxy_type == ProxyType::Https)
                &&& (config.username is Some && config.password is Some) ==> p.credentials == Some((config.username->0, config.password->0))
                &&& !(config.username is Some && config.password is Some) ==> p.credentials is None
            }),
    {
        let https = match config.proxy_type {
            ProxyType::Http => false,
            ProxyType::Https => true,
            ProxyType::Socks5 => {
                return Err(ProxySetupError::Socks5Unsupported);
            },
        };
        let credentials = match (&config.username, &config.password) {
            (Some(u), Some(p)) => Some((u.clone(), p.clone())),
            _ => None,
        };
        Ok(ProxySetup { url: config.url.clone(), https, credentials })
    }
}

/// Checks that a proxy carries traffic.
pub struct ProxyValidator;

impl ProxyValidator {
    /// A proxy passes when a test request through it got a status in
    /// 200..=299; `None` when no response came.
    pub fn verdict(status: Option<u16>) -> (r: bool)
        ensures
            r == (status is Some && 200 <= status->0 <= 299),
    {
        match status {
            Some(s) => 200 <= s && s <= 299,
            None => false,
        }
    }
}

/// No two configurations share a URL.
pub open spec fn urls_distinct(s: Seq<ProxyConfig>) -> bool {
    forall|i: int, j: int| 0 <= i < j < s.len() ==> #[trigger] s[i].url@ != #[trigger] s[j].url@
}

proof fn lemma_count_two<T>(s: Seq<T>, x: T)
    requires
        s.to_multiset().count(x) >= 2,
    ensures
        exists|i: int, j: int| 0 <= i < j < s.len() && s[i] == x && s[j] == x,
    decreases s.len(),
{
    broadcast use vstd::seq_lib::group_to_multiset_ensures;
    broadcast use vstd::multiset::group_multiset_axioms;

    if s.len() == 0 {
        assert(s.to_multiset() =~= Multiset::empty());
    } else {
        let p = s.drop_last();
        let y = s.last();
        assert(p.push(y) =~= s);
        if y == x {
            assert(p.to_multiset().count(x) >= 1);
            assert(p.contains(x));
            let i = choose|i: int| 0 <= i < p.len() && p[i] == x;
            assert(s[i] == x && s[s.len() - 1] == x);
        } else {
            lemma_count_two(p, x);
            let (i, j) = choose|i: int, j: int| 0 <= i < j < p.len() && p[i] == x && p[j] == x;
            assert(s[i] == x && s[j] == x);
        }
    }
}

/// Each proxy is active or quarantined, never both, and never twice: when
/// the URLs of a pool are distinct, they stay distinct in any state with
/// the same entries, which every selection, recovery and accounting step
/// leaves (see `pool_entries` in their contracts).
pub proof fn lemma_pool_urls_stay_distinct(before: ProxyManager, after: ProxyManager)
    requires
        urls_distinct(pool_configs(before)),
        pool_entries(after) == pool_entries(before),
    ensures
        urls_distinct(pool_configs(after)),
{
    broadcast use vstd::seq_lib::group_to_multiset_ensures;
    broadcast use vstd::multiset::group_multiset_axioms;

    let a = pool_configs(before);
    let b = pool_configs(after);
    assert forall|i: int, j: int| 0 <= i < j < b.len() implies #[trigger] b[i].url@ != #[trigger] b[j].url@ by {
        assert(b.contains(b[i]));
        assert(b.contains(b[j]));
        assert(a.to_multiset().count(b[i]) > 0);
        assert(a.to_multiset().count(b[j]) > 0);
        assert(a.contains(b[i]));
        assert(a.contains(b[j]));
        let p = choose|p: int| 0 <= p < a.len() && a[p] == b[i];
        let q = choose|q: int| 0 <= q < a.len() && a[q] == b[j];
        if b[i].url@ == b[j].url@ {
            if b[i] == b[j] {
                assert(b.remove(j).contains(b[i])) by {
                    assert(b.remove(j)[i] == b[i]);
                }
                assert(b.remove(j).to_multiset().count(b[i]) > 0);
                assert(b.to_multiset().count(b[i]) >= 2);
                lemma_count_two(a, b[i]);
                let (x, y) = choose|x: int, y: int| 0 <= x < y < a.len() && a[x] == b[i] && a[y] == b[i];
                assert(a[x].url@ == a[y].url@);
            } else {
                assert(p != q);
                if p < q {
                    assert(a[p].url@ != a[q].url@);
                } else {
                    assert(a[q].url@ != a[p].url@);
                }
            }
        }
    }
}

} // verus!
