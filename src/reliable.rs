//! Reliable provider calls: per-provider retries with a growing, jittered
//! delay, ordered fallback across providers, and a short-lived response
//! cache.
//!
//! The providers themselves are awaited by the caller. This module decides:
//! `begin` says whether the cache answers or which provider to invoke first,
//! `on_failure` records a failed attempt and names the next invocation or the
//! aggregated error, and `on_success` caches the reply.

use vstd::prelude::*;
use crate::backoff::{jitter_from, jitter_value};
use crate::clock::{elapsed_secs, instant_now};
use crate::entropy::random_u32;
use crate::text::{decimal, join_lines, join_with_newlines, to_decimal};

verus! {

#[verifier::external_type_specification]
#[verifier::external_body]
#[verifier::reject_recursive_types(K)]
#[verifier::reject_recursive_types(V)]
#[verifier::reject_recursive_types(S)]
pub struct ExDashMap<K, V, S>(dashmap::DashMap<K, V, S>);

/// Seconds for which a cached reply is served.
pub const CACHE_TTL_SECS: u64 = 60;
/// The smallest base delay between retries, in milliseconds.
pub const MIN_BACKOFF_MS: u64 = 50;
/// The largest delay between retries, in milliseconds.
pub const MAX_BACKOFF_MS: u64 = 10000;

/// The response cache: key to reply and storing second.
pub type ResponseCache = dashmap::DashMap<u64, CachedResponse>;

/// A cached reply and the second at which it was stored.
pub type CachedResponse = (String, u64);

/// What the response cache holds: for each key, the reply and the second
/// (on the provider's own clock) at which it was stored.
pub uninterp spec fn cached_entries(m: ResponseCache) -> Map<u64, (Seq<char>, u64)>;

/// A cache with nothing in it.
pub open spec fn no_entries() -> Map<u64, (Seq<char>, u64)> {
    Map::empty()
}

/// Relies on dashmap's `DashMap::new`: a new map is empty.
#[verifier::external_body]
fn cache_new() -> (r: ResponseCache)
    ensures
        cached_entries(r) == no_entries(),
{
    dashmap::DashMap::new()
}

/// Relies on dashmap's `DashMap::get`: the entry stored under `key`, if any,
/// copied out of the map.
#[verifier::external_body]
fn cache_get(m: &ResponseCache, key: u64) -> (r: Option<(String, u64)>)
    ensures
        match r {
            Some(e) => cached_entries(*m).contains_key(key) && cached_entries(*m)[key] == (e.0@, e.1),
            None => !cached_entries(*m).contains_key(key),
        },
{
    m.get(&key).map(|e| (e.value().0.clone(), e.value().1))
}

/// Relies on dashmap's `DashMap::insert`: afterwards `key` maps to `value`,
/// the other keys as before.
#[verifier::external_body]
fn cache_insert(m: &mut ResponseCache, key: u64, value: (String, u64))
    ensures
        cached_entries(*final(m)) == cached_entries(*old(m)).insert(key, (value.0@, value.1)),
{
    m.insert(key, value);
}

/// Relies on dashmap's `DashMap::remove`: afterwards `key` maps to nothing,
/// the other keys as before.
#[verifier::external_body]
fn cache_remove(m: &mut ResponseCache, key: u64)
    ensures
        cached_entries(*final(m)) == cached_entries(*old(m)).remove(key),
{
    m.remove(&key);
}

/// The 64-bit digest of a message and a model that keys the cache.
pub uninterp spec fn cache_key_of(message: Seq<char>, model: Seq<char>) -> u64;

/// Relies on std's `BuildHasher::hash_one` with the default hasher, whose
/// keys are fixed: a 64-bit digest of `(message, model)` that depends on the
/// two texts alone.
#[verifier::external_body]
fn cache_key(message: &str, model: &str) -> (r: u64)
    ensures
        r == cache_key_of(message@, model@),
{
    std::hash::BuildHasher::hash_one(
        &std::hash::BuildHasherDefault::<std::collections::hash_map::DefaultHasher>::default(),
        (message, model),
    )
}

/// Whether a reply stored at second `created` is still served at `now`.
pub open spec fn is_fresh(created: u64, now: u64) -> bool {
    now < created + CACHE_TTL_SECS
}

/// The reply that the cache serves for `key` at `now`, if any.
pub open spec fn cache_answer(entries: Map<u64, (Seq<char>, u64)>, key: u64, now: u64) -> Option<Seq<char>> {
    if entries.contains_key(key) && is_fresh(entries[key].1, now) {
        Some(entries[key].0)
    } else {
        None
    }
}

/// The cache after a lookup of `key` at `now`: a stale entry is evicted.
pub open spec fn cache_after_lookup(entries: Map<u64, (Seq<char>, u64)>, key: u64, now: u64) -> Map<u64, (Seq<char>, u64)> {
    if entries.contains_key(key) && !is_fresh(entries[key].1, now) {
        entries.remove(key)
    } else {
        entries
    }
}

/// The line recorded for a failed attempt: `"{name} attempt {i+1}/{n+1}: {err}"`.
pub open spec fn failure_line(name: Seq<char>, attempt: u32, max_retries: u32, err: Seq<char>) -> Seq<char> {
    name + " attempt "@ + decimal((attempt + 1) as nat) + "/"@ + decimal((max_retries + 1) as nat) + ": "@ + err
}

/// The error surfaced once every provider has failed every attempt.
pub open spec fn exhausted_message(lines: Seq<Seq<char>>) -> Seq<char> {
    "All providers failed. Attempts:\n"@ + join_lines(lines)
}

/// The delay after `b`: doubled, at most `MAX_BACKOFF_MS`.
pub open spec fn next_backoff(b: u64) -> u64 {
    if 2 * b > MAX_BACKOFF_MS { MAX_BACKOFF_MS } else { (2 * b) as u64 }
}

/// Where a call stands: the cache key, the provider and attempt now being
/// tried, the delay for the next retry, and the lines of the failed attempts.
pub struct CallState {
    pub key: u64,
    pub provider: usize,
    pub attempt: u32,
    pub backoff_ms: u64,
    pub failures: Vec<String>,
}

impl CallState {
    pub open spec fn lines(&self) -> Seq<Seq<char>> {
        self.failures@.map_values(|l: String| l@)
    }
}

/// What the caller does next.
pub enum CallStep {
    /// Wait `delay_ms`, then invoke the provider at index `provider`.
    Invoke { provider: usize, delay_ms: u64 },
    /// The call is over, with this reply or this aggregated error.
    Done(Result<String, String>),
}

/// A provider chain with retry, fallback and a response cache.
pub struct ReliableProvider {
    pub provider_names: Vec<String>,
    pub max_retries: u32,
    pub base_backoff_ms: u64,
    pub cache: ResponseCache,
    pub started: std::time::Instant,
}

impl ReliableProvider {
    pub open spec fn names(&self) -> Seq<Seq<char>> {
        self.provider_names@.map_values(|l: String| l@)
    }

    pub open spec fn entries(&self) -> Map<u64, (Seq<char>, u64)> {
        cached_entries(self.cache)
    }

    /// A state of a call on this chain: `provider` and `attempt` are the
    /// position reached after as many failures as were recorded.
    pub open spec fn call_wf(&self, st: CallState) -> bool {
        &&& self.base_backoff_ms >= MIN_BACKOFF_MS
        &&& st.provider < self.provider_names@.len()
        &&& st.attempt <= self.max_retries
        &&& st.failures@.len() == st.provider * (self.max_retries + 1) + st.attempt
        &&& MIN_BACKOFF_MS <= st.backoff_ms <= if self.base_backoff_ms > MAX_BACKOFF_MS { self.base_backoff_ms } else { MAX_BACKOFF_MS }
    }

    /// A chain over the providers named in order of priority; the base delay
    /// is raised to at least `MIN_BACKOFF_MS`, and the cache starts empty.
    pub fn new(provider_names: Vec<String>, max_retries: u32, base_backoff_ms: u64) -> (r: Self)
        ensures
            r.provider_names@ == provider_names@,
            r.max_retries == max_retries,
            r.base_backoff_ms == if base_backoff_ms < MIN_BACKOFF_MS { MIN_BACKOFF_MS } else { base_backoff_ms },
            r.entries() == Map::<u64, (Seq<char>, u64)>::empty(),
    {
        ReliableProvider {
            provider_names,
            max_retries,
            base_backoff_ms: if base_backoff_ms < MIN_BACKOFF_MS { MIN_BACKOFF_MS } else { base_backoff_ms },
            cache: cache_new(),
            started: instant_now(),
        }
    }

    /// Starts a call for `key` at second `now`: the cache answers if it holds
    /// a fresh reply (a stale one is evicted); otherwise the first provider is
    /// invoked at once, or, with no provider, the call fails.
    pub fn begin_at(&mut self, key: u64, now: u64) -> (r: (CallState, CallStep))
        requires
            old(self).base_backoff_ms >= MIN_BACKOFF_MS,
        ensures
            final(self).provider_names == old(self).provider_names,
            final(self).max_retries == old(self).max_retries,
            final(self).base_backoff_ms == old(self).base_backoff_ms,
            final(self).entries() == cache_after_lookup(old(self).entries(), key, now),
            r.0.key == key,
            match cache_answer(old(self).entries(), key, now) {
                Some(c) => r.1 matches CallStep::Done(Ok(s)) && s@ == c,
                None => if old(self).provider_names@.len() > 0 {
                    &&& r.1 matches CallStep::Invoke { provider, delay_ms } && provider == 0 && delay_ms == 0
                    &&& r.0.provider == 0 && r.0.attempt == 0 && r.0.failures@.len() == 0
                    &&& r.0.backoff_ms == old(self).base_backoff_ms
                    &&& final(self).call_wf(r.0)
                } else {
                    r.1 matches CallStep::Done(Err(e)) && e@ == exhausted_message(Seq::empty())
                },
            },
    {
        let st = CallState { key, provider: 0, attempt: 0, backoff_ms: self.base_backoff_ms, failures: Vec::new() };
        match cache_get(&self.cache, key) {
            Some(e) => {
                if now < e.1 || now - e.1 < CACHE_TTL_SECS {
                    return (st, CallStep::Done(Ok(e.0)));
                }
                cache_remove(&mut self.cache, key);
            },
            None => {},
        }
        if self.provider_names.len() == 0 {
            let mut msg = String::from_str("All providers failed. Attempts:\n");
            let joined = join_with_newlines(&st.failures);
            proof {
                assert(st.lines() =~= Seq::<Seq<char>>::empty());
            }
            msg.append(joined.as_str());
            return (st, CallStep::Done(Err(msg)));
        }
        (st, CallStep::Invoke { provider: 0, delay_ms: 0 })
    }

    /// Starts a call for `(message, model)`, reading the clock.
    pub fn begin(&mut self, message: &str, model: &str) -> (r: (CallState, CallStep))
        requires
            old(self).base_backoff_ms >= MIN_BACKOFF_MS,
        ensures
            final(self).provider_names == old(self).provider_names,
            final(self).max_retries == old(self).max_retries,
            final(self).base_backoff_ms == old(self).base_backoff_ms,
            r.0.key == cache_key_of(message@, model@),
            exists|now: u64| #[trigger] cache_after_lookup(old(self).entries(), r.0.key, now) == final(self).entries()
                && match cache_answer(old(self).entries(), r.0.key, now) {
                Some(c) => r.1 matches CallStep::Done(Ok(s)) && s@ == c,
                None => if old(self).provider_names@.len() > 0 {
                    &&& r.1 matches CallStep::Invoke { provider, delay_ms } && provider == 0 && delay_ms == 0
                    &&& r.0.provider == 0 && r.0.attempt == 0 && r.0.failures@.len() == 0
                    &&& r.0.backoff_ms == old(self).base_backoff_ms
                    &&& final(self).call_wf(r.0)
                } else {
                    r.1 matches CallStep::Done(Err(e)) && e@ == exhausted_message(Seq::empty())
                },
            },
    {
        let key = cache_key(message, model);
        let now = elapsed_secs(&self.started);
        let r = self.begin_at(key, now);
        assert(cache_after_lookup(old(self).entries(), r.0.key, now) == self.entries());
        r
    }

    /// Records the failure `err` of the attempt that `st` stands at, with
    /// `raw` as the random draw for the retry delay. The same provider is
    /// retried after a jittered delay while it has attempts left; then the
    /// next provider is invoked at once; after the last one the call fails
    /// with every recorded line.
    pub fn on_failure_with(&self, st: &mut CallState, err: &str, raw: u32) -> (r: CallStep)
        requires
            self.call_wf(*old(st)),
        ensures
            final(st).key == old(st).key,
            final(st).lines() == old(st).lines().push(failure_line(
                self.names()[old(st).provider as int], old(st).attempt, self.max_retries, err@)),
            if old(st).attempt < self.max_retries {
                &&& final(st).provider == old(st).provider
                &&& final(st).attempt == old(st).attempt + 1
                &&& final(st).backoff_ms == next_backoff(old(st).backoff_ms)
                &&& r matches CallStep::Invoke { provider, delay_ms } && provider == old(st).provider
                    && delay_ms == jitter_value(old(st).backoff_ms, raw)
                &&& self.call_wf(*final(st))
            } else if old(st).provider + 1 < self.provider_names@.len() {
                &&& final(st).provider == old(st).provider + 1
                &&& final(st).attempt == 0
                &&& final(st).backoff_ms == self.base_backoff_ms
                &&& r matches CallStep::Invoke { provider, delay_ms } && provider == old(st).provider + 1 && delay_ms == 0
                &&& self.call_wf(*final(st))
            } else {
                r matches CallStep::Done(Err(e)) && e@ == exhausted_message(final(st).lines())
            },
    {
        let ghost before = st.lines();
        let ghost p0 = st.provider as int;
        let ghost rr = self.max_retries as int;
        let mut line = self.provider_names[st.provider].clone();
        line.append(" attempt ");
        line.append(to_decimal(st.attempt as u64 + 1).as_str());
        line.append("/");
        line.append(to_decimal(self.max_retries as u64 + 1).as_str());
        line.append(": ");
        line.append(err);
        st.failures.push(line);
        proof {
            assert(st.lines() =~= before.push(failure_line(
                self.names()[old(st).provider as int], old(st).attempt, self.max_retries, err@)));
        }
        if st.attempt < self.max_retries {
            let delay = jitter_from(st.backoff_ms, raw);
            st.backoff_ms = if st.backoff_ms > MAX_BACKOFF_MS / 2 { MAX_BACKOFF_MS } else { st.backoff_ms * 2 };
            st.attempt = st.attempt + 1;
            proof {
                assert(st.failures@.len() == st.provider * (self.max_retries + 1) + st.attempt);
            }
            CallStep::Invoke { provider: st.provider, delay_ms: delay }
        } else if st.provider < self.provider_names.len() - 1 {
            st.provider = st.provider + 1;
            st.attempt = 0;
            st.backoff_ms = self.base_backoff_ms;
            proof {
                assert((p0 + 1) * (rr + 1) == p0 * (rr + 1) + rr + 1) by (nonlinear_arith);
                assert(st.failures@.len() == st.provider * (self.max_retries + 1) + st.attempt);
            }
            CallStep::Invoke { provider: st.provider, delay_ms: 0 }
        } else {
            let mut msg = String::from_str("All providers failed. Attempts:\n");
            let joined = join_with_newlines(&st.failures);
            msg.append(joined.as_str());
            CallStep::Done(Err(msg))
        }
    }

    /// Records a failed attempt, drawing the retry delay at random.
    pub fn on_failure(&self, st: &mut CallState, err: &str) -> (r: CallStep)
        requires
            self.call_wf(*old(st)),
        ensures
            final(st).key == old(st).key,
            final(st).lines() == old(st).lines().push(failure_line(
                self.names()[old(st).provider as int], old(st).attempt, self.max_retries, err@)),
            if old(st).attempt < self.max_retries {
                &&& final(st).provider == old(st).provider
                &&& final(st).attempt == old(st).attempt + 1
                &&& final(st).backoff_ms == next_backoff(old(st).backoff_ms)
                &&& r matches CallStep::Invoke { provider, delay_ms } && provider == old(st).provider && delay_ms >= 1
                &&& self.call_wf(*final(st))
            } else if old(st).provider + 1 < self.provider_names@.len() {
                &&& final(st).provider == old(st).provider + 1
                &&& final(st).attempt == 0
                &&& final(st).backoff_ms == self.base_backoff_ms
                &&& r matches CallStep::Invoke { provider, delay_ms } && provider == old(st).provider + 1 && delay_ms == 0
                &&& self.call_wf(*final(st))
            } else {
                r matches CallStep::Done(Err(e)) && e@ == exhausted_message(final(st).lines())
            },
    {
        let raw = random_u32();
        proof {
            crate::backoff::lemma_jitter_range(old(st).backoff_ms, raw);
        }
        self.on_failure_with(st, err, raw)
    }

    /// Stores the reply of a successful attempt under the call's key, stamped
    /// with second `now`, and hands it back.
    pub fn on_success_at(&mut self, st: &CallState, reply: String, now: u64) -> (r: String)
        ensures
            r@ == reply@,
            final(self).entries() == old(self).entries().insert(st.key, (reply@, now)),
            final(self).provider_names == old(self).provider_names,
            final(self).max_retries == old(self).max_retries,
            final(self).base_backoff_ms == old(self).base_backoff_ms,
    {
        cache_insert(&mut self.cache, st.key, (reply.clone(), now));
        reply
    }

    /// Stores the reply of a successful attempt, reading the clock.
    pub fn on_success(&mut self, st: &CallState, reply: String) -> (r: String)
        ensures
            r@ == reply@,
            exists|now: u64| final(self).entries() == old(self).entries().insert(st.key, (reply@, now)),
            final(self).provider_names == old(self).provider_names,
            final(self).max_retries == old(self).max_retries,
            final(self).base_backoff_ms == old(self).base_backoff_ms,
    {
        let now = elapsed_secs(&self.started);
        self.on_success_at(st, reply, now)
    }
}

/// A reply stored at `stored_at` answers a later call for the same key
/// while it is fresh, so the provider is invoked once for both calls.
pub proof fn lemma_cache_serves_within_ttl(
    entries: Map<u64, (Seq<char>, u64)>,
    key: u64,
    reply: Seq<char>,
    stored_at: u64,
    now: u64,
)
    requires
        stored_at <= now,
        now < stored_at + CACHE_TTL_SECS,
    ensures
        cache_answer(entries.insert(key, (reply, stored_at)), key, now) == Some(reply),
        cache_after_lookup(entries.insert(key, (reply, stored_at)), key, now) == entries.insert(key, (reply, stored_at)),
{
}

/// As long as no more failures were recorded than there are retries, the
/// next attempt still goes to the first provider: a provider that fails
/// fewer than `max_retries + 1` times and then replies is not replaced.
pub proof fn lemma_retries_stay_on_first_provider(rp: ReliableProvider, st: CallState)
    requires
        rp.call_wf(st),
        st.failures@.len() <= rp.max_retries,
    ensures
        st.provider == 0,
        st.attempt == st.failures@.len(),
{
    let r = rp.max_retries as int;
    let p = st.provider as int;
    let a = st.attempt as int;
    assert(p == 0) by (nonlinear_arith)
        requires
            p * (r + 1) + a <= r,
            0 <= a,
            p >= 0,
            r >= 0,
    ;
    assert(p * (r + 1) == 0) by (nonlinear_arith)
        requires
            p == 0,
    ;
}

/// After exactly `max_retries + 1` failures the call has moved on to the
/// second provider, at its first attempt: the first provider was invoked
/// `max_retries + 1` times, the second is invoked once next.
pub proof fn lemma_fallback_after_all_retries(rp: ReliableProvider, st: CallState)
    requires
        rp.call_wf(st),
        st.failures@.len() == rp.max_retries + 1,
    ensures
        st.provider == 1,
        st.attempt == 0,
{
    let r = rp.max_retries as int;
    let p = st.provider as int;
    let a = st.attempt as int;
    assert(p == 1 && a == 0) by (nonlinear_arith)
        requires
            p * (r + 1) + a == r + 1,
            0 <= a <= r,
            p >= 0,
            r >= 0,
    ;
}

} // verus!
