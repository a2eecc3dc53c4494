//! Cache of upstream (fallback) DNS responses. Records of the local store
//! are never cached.

use std::sync::Arc;
use std::time::{Duration, Instant};

use vstd::prelude::*;
use vstd::rwlock::{RwLock, RwLockPredicate};

use crate::models::{canonical_name, normalize_name};
use crate::wire::{decode_message, decoded_message};

verus! {

broadcast use vstd::string::group_string_axioms;

/// Seconds that a response without answers (such as NXDOMAIN) is kept:
/// negative caching.
pub const NEGATIVE_CACHE_TTL_SECS: u64 = 30;

/// The monotonic clock's points in time, carried through as opaque values.
#[verifier::external_type_specification]
#[verifier::external_body]
pub struct ExInstant(Instant);

/// A point of the monotonic clock (`std::time::Instant::now`).
#[verifier::external_body]
fn clock_now() -> Instant {
    Instant::now()
}

/// The time elapsed since `since` (`Instant::elapsed`). Nothing is stated
/// of the value: it is read from the clock.
#[verifier::external_body]
fn elapsed_since(since: &Instant) -> Duration {
    since.elapsed()
}

/// The whole nanoseconds of a duration (`Duration::as_nanos`). A duration
/// is opaque here, so nothing is stated of the value.
#[verifier::external_body]
fn whole_nanos(d: &Duration) -> u128 {
    d.as_nanos()
}

/// Nanoseconds elapsed since `since`, as read from the clock.
fn nanos_since(since: &Instant) -> u128 {
    let d = elapsed_since(since);
    whole_nanos(&d)
}

/// The TTLs of the answer records of an encoded DNS message, where it decodes.
pub open spec fn decoded_answer_ttls(message: Seq<u8>) -> Option<Seq<u32>> {
    match decoded_message(message) {
        Some(m) => Some(m.answer_ttls),
        None => None,
    }
}

/// The smaller of two integers.
pub open spec fn min_of(a: int, b: int) -> int {
    if a < b {
        a
    } else {
        b
    }
}

/// The least of a non-empty list of TTLs.
pub open spec fn least(ts: Seq<u32>) -> int
    decreases ts.len(),
{
    if ts.len() <= 1 {
        if ts.len() == 1 {
            ts[0] as int
        } else {
            0
        }
    } else {
        min_of(least(ts.drop_last()), ts.last() as int)
    }
}

/// The time (seconds) a response may be cached: the least TTL of its
/// answers; for a response without answers, or one that cannot be
/// decoded, the negative-cache TTL; either way capped at `max_ttl`.
pub open spec fn cache_ttl(answers: Option<Seq<u32>>, max_ttl: u64) -> u64 {
    match answers {
        None => min_of(NEGATIVE_CACHE_TTL_SECS as int, max_ttl as int) as u64,
        Some(ts) => if ts.len() == 0 {
            min_of(NEGATIVE_CACHE_TTL_SECS as int, max_ttl as int) as u64
        } else {
            min_of(least(ts), max_ttl as int) as u64
        },
    }
}

/// The cache TTL (seconds) for a response whose decoded answer TTLs are `answers`.
pub fn ttl_from_answers(answers: Option<&[u32]>, max_ttl: u64) -> (ttl: u64)
    ensures
        ttl == cache_ttl(
            match answers {
                Some(a) => Some(a@),
                None => None,
            },
            max_ttl,
        ),
{
    match answers {
        None => {
            if NEGATIVE_CACHE_TTL_SECS < max_ttl {
                NEGATIVE_CACHE_TTL_SECS
            } else {
                max_ttl
            }
        },
        Some(ts) => {
            if ts.len() == 0 {
                if NEGATIVE_CACHE_TTL_SECS < max_ttl {
                    NEGATIVE_CACHE_TTL_SECS
                } else {
                    max_ttl
                }
            } else {
                let mut m: u32 = ts[0];
                let mut i: usize = 1;
                while i < ts.len()
                    invariant
                        1 <= i <= ts.len(),
                        m == least(ts@.take(i as int)),
                    decreases ts.len() - i,
                {
                    assert(ts@.take(i + 1).drop_last() =~= ts@.take(i as int));
                    if ts[i] < m {
                        m = ts[i];
                    }
                    i = i + 1;
                }
                assert(ts@.take(ts.len() as int) =~= ts@);
                if (m as u64) < max_ttl {
                    m as u64
                } else {
                    max_ttl
                }
            }
        },
    }
}

/// One cached response.
pub struct CacheEntry {
    name: String,
    query_type: u16,
    response: Vec<u8>,
    /// Clock reading (nanoseconds since the cache's epoch) when it was stored.
    created_at: u128,
    /// Seconds it stays fresh.
    ttl: u64,
}

/// A cache entry as a mathematical value.
pub ghost struct EntryView {
    pub name: Seq<char>,
    pub query_type: u16,
    pub response: Seq<u8>,
    pub created_at: u128,
    pub ttl: u64,
}

impl View for CacheEntry {
    type V = EntryView;

    closed spec fn view(&self) -> EntryView {
        EntryView {
            name: self.name@,
            query_type: self.query_type,
            response: self.response@,
            created_at: self.created_at,
            ttl: self.ttl,
        }
    }
}

/// Whether an entry is still fresh at clock reading `now`: the time since
/// it was stored (none if the clock reads earlier) is below its TTL.
pub open spec fn is_fresh(e: EntryView, now: u128) -> bool {
    (if now >= e.created_at {
        now - e.created_at
    } else {
        0
    }) < e.ttl as int * 1_000_000_000
}

/// Whether some entry has key `(name, qtype)`.
pub open spec fn has_key(s: Seq<EntryView>, name: Seq<char>, qtype: u16) -> bool {
    exists|i: int| 0 <= i < s.len() && (#[trigger] s[i]).name == name && s[i].query_type == qtype
}

/// The index of the entry with key `(name, qtype)`.
pub open spec fn key_index(s: Seq<EntryView>, name: Seq<char>, qtype: u16) -> int {
    choose|i: int| 0 <= i < s.len() && (#[trigger] s[i]).name == name && s[i].query_type == qtype
}

/// No two entries share a key.
pub open spec fn distinct_keys(s: Seq<EntryView>) -> bool {
    forall|i: int, j: int|
        0 <= i < s.len() && 0 <= j < s.len() && i != j ==> (#[trigger] s[i]).name != (#[trigger] s[j]).name
            || s[i].query_type != s[j].query_type
}

/// A cache lookup at clock reading `now`: the cached response if its entry
/// is fresh; otherwise nothing, and an expired entry is dropped.
pub open spec fn lookup_at(s: Seq<EntryView>, name: Seq<char>, qtype: u16, now: u128) -> (Option<Seq<u8>>, Seq<EntryView>) {
    if has_key(s, name, qtype) {
        let i = key_index(s, name, qtype);
        if is_fresh(s[i], now) {
            (Some(s[i].response), s)
        } else {
            (None, s.remove(i))
        }
    } else {
        (None, s)
    }
}

/// `s` with `e` stored under its key, replacing an entry with that key.
pub open spec fn store_entry(s: Seq<EntryView>, e: EntryView) -> Seq<EntryView> {
    if has_key(s, e.name, e.query_type) {
        s.update(key_index(s, e.name, e.query_type), e)
    } else {
        s.push(e)
    }
}

/// The entries after storing `response` under `(name, qtype)` at clock
/// reading `now`, in a cache whose TTL cap is `max_ttl`.
pub open spec fn stored_at(s: Seq<EntryView>, name: Seq<char>, qtype: u16, response: Seq<u8>, now: u128, max_ttl: u64) -> Seq<EntryView> {
    store_entry(
        s,
        EntryView {
            name,
            query_type: qtype,
            response,
            created_at: now,
            ttl: cache_ttl(decoded_answer_ttls(response), max_ttl),
        },
    )
}

/// The entries whose name is not `name`, in order.
pub open spec fn entries_not_named(s: Seq<EntryView>, name: Seq<char>) -> Seq<EntryView>
    decreases s.len(),
{
    if s.len() == 0 {
        Seq::empty()
    } else {
        let rest = entries_not_named(s.drop_last(), name);
        if s.last().name != name {
            rest.push(s.last())
        } else {
            rest
        }
    }
}

/// Total bytes of the cached responses.
pub open spec fn total_bytes(s: Seq<EntryView>) -> int
    decreases s.len(),
{
    if s.len() == 0 {
        0
    } else {
        total_bytes(s.drop_last()) + s.last().response.len()
    }
}

/// Cache size figures.
pub struct CacheStats {
    pub entries: usize,
    pub size_bytes: usize,
}

/// DNS response cache for fallback queries only.
pub struct DnsCache {
    entries: Vec<CacheEntry>,
    max_ttl: u64,
    epoch: Instant,
    /// A ghost mark that the cache keeps through all its operations. A new
    /// cache's mark is not revealed, so no other cache can be shown to bear
    /// the mark of the cache that a `SharedCache` guards.
    mark: Ghost<int>,
}

impl View for DnsCache {
    type V = Seq<EntryView>;

    closed spec fn view(&self) -> Seq<EntryView> {
        self.entries@.map_values(|e: CacheEntry| e@)
    }
}

/// An entry kept by a domain flush was in the cache.
pub proof fn lemma_not_named_contains(s: Seq<EntryView>, name: Seq<char>, x: EntryView)
    requires
        entries_not_named(s, name).contains(x),
    ensures
        s.contains(x),
    decreases s.len(),
{
    if s.len() > 0 {
        let rest = entries_not_named(s.drop_last(), name);
        if s.last().name != name && x == s.last() {
            assert(s[s.len() - 1] == x);
        } else {
            if s.last().name != name {
                let k = choose|k: int| 0 <= k < entries_not_named(s, name).len() && entries_not_named(s, name)[k] == x;
                assert(rest.push(s.last())[k] == x);
                assert(k < rest.len());
                assert(rest[k] == x);
            }
            assert(rest.contains(x));
            lemma_not_named_contains(s.drop_last(), name, x);
            let j = choose|j: int| 0 <= j < s.drop_last().len() && s.drop_last()[j] == x;
            assert(s[j] == x);
        }
    }
}

/// A domain flush keeps keys distinct.
pub proof fn lemma_not_named_distinct(s: Seq<EntryView>, name: Seq<char>)
    requires
        distinct_keys(s),
    ensures
        distinct_keys(entries_not_named(s, name)),
    decreases s.len(),
{
    if s.len() > 0 {
        let init = s.drop_last();
        assert(distinct_keys(init)) by {
            assert forall|i: int, j: int| 0 <= i < init.len() && 0 <= j < init.len() && i != j implies (#[trigger] init[i]).name != (#[trigger] init[j]).name || init[i].query_type != init[j].query_type by {
                assert(init[i] == s[i] && init[j] == s[j]);
            }
        }
        lemma_not_named_distinct(init, name);
        let rest = entries_not_named(init, name);
        if s.last().name != name {
            let res = rest.push(s.last());
            assert forall|i: int, j: int| 0 <= i < res.len() && 0 <= j < res.len() && i != j implies (#[trigger] res[i]).name != (#[trigger] res[j]).name || res[i].query_type != res[j].query_type by {
                if i == res.len() - 1 || j == res.len() - 1 {
                    let k = if i == res.len() - 1 { j } else { i };
                    assert(rest[k] == res[k]);
                    assert(rest.contains(res[k]));
                    lemma_not_named_contains(init, name, res[k]);
                    let m = choose|m: int| 0 <= m < init.len() && init[m] == res[k];
                    assert(s[m] == res[k]);
                    assert(s[s.len() - 1].name != s[m].name || s[s.len() - 1].query_type != s[m].query_type);
                } else {
                    assert(res[i] == rest[i] && res[j] == rest[j]);
                }
            }
        }
    }
}

/// The invariant of a lock-guarded cache.
pub struct WellFormedCache {
    pub max_ttl: u64,
    pub mark: Ghost<int>,
}

impl RwLockPredicate<DnsCache> for WellFormedCache {
    open spec fn inv(self, v: DnsCache) -> bool {
        v.wf() && v.max_ttl_secs() == self.max_ttl && v.mark() == self.mark@
    }
}

impl DnsCache {
    /// No two entries share a key.
    pub open spec fn wf(&self) -> bool {
        distinct_keys(self@)
    }

    /// The cap on the time a response is kept, in seconds.
    pub closed spec fn max_ttl_secs(&self) -> u64 {
        self.max_ttl
    }

    /// The cache's ghost mark.
    pub closed spec fn mark(&self) -> int {
        self.mark@
    }

    /// An empty cache that keeps responses at most `max_ttl` seconds.
    pub fn new(max_ttl: u64) -> (c: Self)
        ensures
            c.wf(),
            c@ == Seq::<EntryView>::empty(),
            c.max_ttl_secs() == max_ttl,
    {
        let c = DnsCache { entries: Vec::new(), max_ttl, epoch: clock_now(), mark: Ghost(0) };
        assert(c@ =~= Seq::<EntryView>::empty());
        c
    }

    /// Index of the entry with key `(name, qtype)`, if any.
    fn find(&self, name: &String, qtype: u16) -> (r: Option<usize>)
        requires
            self.wf(),
        ensures
            match r {
                Some(i) => has_key(self@, name@, qtype) && i == key_index(self@, name@, qtype) && i < self@.len(),
                None => !has_key(self@, name@, qtype),
            },
    {
        let mut i: usize = 0;
        while i < self.entries.len()
            invariant
                i <= self.entries.len(),
                self@.len() == self.entries.len(),
                distinct_keys(self@),
                forall|j: int| 0 <= j < i ==> !((#[trigger] self@[j]).name == name@ && self@[j].query_type == qtype),
            decreases self.entries.len() - i,
        {
            assert(self@[i as int] == self.entries@[i as int]@);
            if self.entries[i].name == *name && self.entries[i].query_type == qtype {
                proof {
                    assert(has_key(self@, name@, qtype));
                    let c = key_index(self@, name@, qtype);
                    assert(c == i);
                }
                return Some(i);
            }
            i = i + 1;
        }
        None
    }

    /// Look up a cached response at clock reading `now`. Returns `None` if
    /// not present or expired; an expired entry is removed.
    pub fn get_at(&mut self, name: &str, query_type: u16, now: u128) -> (r: Option<Vec<u8>>)
        requires
            old(self).wf(),
        ensures
            final(self).wf(),
            final(self).max_ttl_secs() == old(self).max_ttl_secs(),
            final(self).mark() == old(self).mark(),
            (match r {
                Some(b) => Some(b@),
                None => None,
            }, final(self)@) == lookup_at(old(self)@, name@, query_type, now),
    {
        let key = String::from_str(name);
        match self.find(&key, query_type) {
            Some(i) => {
                let e = &self.entries[i];
                assert(self@[i as int] == e@);
                let age = now.saturating_sub(e.created_at);
                if age < (e.ttl as u128) * 1_000_000_000 {
                    Some(e.response.clone())
                } else {
                    let ghost before = self@;
                    self.entries.remove(i);
                    proof {
                        assert(self@ =~= before.remove(i as int));
                        assert forall|a: int, b: int| 0 <= a < self@.len() && 0 <= b < self@.len() && a != b implies (#[trigger] self@[a]).name != (#[trigger] self@[b]).name || self@[a].query_type != self@[b].query_type by {
                            let a2 = if a < i { a } else { a + 1 };
                            let b2 = if b < i { b } else { b + 1 };
                            assert(self@[a] == before[a2] && self@[b] == before[b2]);
                        }
                    }
                    None
                }
            },
            None => None,
        }
    }

    /// Look up a cached response. Returns `None` if not present or expired;
    /// an expired entry is removed. Freshness is judged by the clock, so
    /// the result is that of `get_at` at some clock reading.
    pub fn get(&mut self, name: &str, query_type: u16) -> (r: Option<Vec<u8>>)
        requires
            old(self).wf(),
        ensures
            final(self).wf(),
            final(self).max_ttl_secs() == old(self).max_ttl_secs(),
            final(self).mark() == old(self).mark(),
            exists|now: u128| (match r {
                Some(b) => Some(b@),
                None => None,
            }, final(self)@) == #[trigger] lookup_at(old(self)@, name@, query_type, now),
    {
        let now = nanos_since(&self.epoch);
        self.get_at(name, query_type, now)
    }

    /// The cache's clock: nanoseconds since it was made. Nothing is stated
    /// of the value: it is read from the clock.
    pub(crate) fn clock(&self) -> u128 {
        nanos_since(&self.epoch)
    }

    /// The cache TTL (seconds) of a response: see `cache_ttl`.
    pub fn extract_ttl(&self, response: &[u8]) -> (ttl: u64)
        ensures
            ttl == cache_ttl(decoded_answer_ttls(response@), self.max_ttl_secs()),
    {
        match decode_message(response) {
            Some(m) => ttl_from_answers(Some(m.answer_ttls.as_slice()), self.max_ttl),
            None => ttl_from_answers(None, self.max_ttl),
        }
    }

    /// Store a response at clock reading `now`, under `(name, query_type)`,
    /// replacing an entry with that key. Its TTL is `extract_ttl`'s.
    pub fn put_at(&mut self, name: &str, query_type: u16, response: Vec<u8>, now: u128)
        requires
            old(self).wf(),
        ensures
            final(self).wf(),
            final(self).max_ttl_secs() == old(self).max_ttl_secs(),
            final(self).mark() == old(self).mark(),
            final(self)@ == stored_at(old(self)@, name@, query_type, response@, now, old(self).max_ttl_secs()),
    {
        let ttl = self.extract_ttl(response.as_slice());
        let key = String::from_str(name);
        let entry = CacheEntry { name: key.clone(), query_type, response, created_at: now, ttl };
        let ghost before = self@;
        match self.find(&key, query_type) {
            Some(i) => {
                self.entries.set(i, entry);
                proof {
                    assert(self@ =~= before.update(i as int, entry@));
                    assert forall|a: int, b: int| 0 <= a < self@.len() && 0 <= b < self@.len() && a != b implies (#[trigger] self@[a]).name != (#[trigger] self@[b]).name || self@[a].query_type != self@[b].query_type by {
                        assert(before[a].name == self@[a].name && before[a].query_type == self@[a].query_type);
                        assert(before[b].name == self@[b].name && before[b].query_type == self@[b].query_type);
                    }
                }
            },
            None => {
                self.entries.push(entry);
                proof {
                    assert(self@ =~= before.push(entry@));
                }
            },
        }
    }

    /// Store a response, stamped with the clock's current reading.
    pub fn put(&mut self, name: &str, query_type: u16, response: Vec<u8>)
        requires
            old(self).wf(),
        ensures
            final(self).wf(),
            final(self).max_ttl_secs() == old(self).max_ttl_secs(),
            final(self).mark() == old(self).mark(),
            exists|now: u128| final(self)@ == #[trigger] stored_at(old(self)@, name@, query_type, response@, now, old(self).max_ttl_secs()),
    {
        let now = nanos_since(&self.epoch);
        self.put_at(name, query_type, response, now);
    }

    /// Flush all cached entries. Returns the number of entries removed.
    pub fn flush(&mut self) -> (n: usize)
        ensures
            final(self).wf(),
            final(self).max_ttl_secs() == old(self).max_ttl_secs(),
            final(self).mark() == old(self).mark(),
            n == old(self)@.len(),
            final(self)@ == Seq::<EntryView>::empty(),
    {
        let n = self.entries.len();
        self.entries.clear();
        assert(self@ =~= Seq::<EntryView>::empty());
        n
    }

    /// Flush the entries of a domain name (all record types), the name
    /// taken in canonical form. Returns the number removed.
    pub fn flush_domain(&mut self, name: &str) -> (n: usize)
        requires
            old(self).wf(),
        ensures
            final(self).wf(),
            final(self).max_ttl_secs() == old(self).max_ttl_secs(),
            final(self).mark() == old(self).mark(),
            final(self)@ == entries_not_named(old(self)@, canonical_name(name@)),
            n == old(self)@.len() - final(self)@.len(),
    {
        let target = normalize_name(name);
        let ghost s = self@;
        let ghost t = canonical_name(name@);
        let mut kept: Vec<CacheEntry> = Vec::new();
        let mut removed: usize = 0;
        let n = self.entries.len();
        let mut i: usize = 0;
        while i < n
            invariant
                i <= n == self.entries.len(),
                self@ == s,
                s.len() == n,
                target@ == t,
                kept@.map_values(|e: CacheEntry| e@) == entries_not_named(s.take(i as int), t),
                removed + kept.len() == i,
            decreases n - i,
        {
            let e = &self.entries[i];
            assert(s[i as int] == e@);
            assert(s.take(i + 1).drop_last() == s.take(i as int));
            if e.name == target {
                removed = removed + 1;
            } else {
                let copy = CacheEntry {
                    name: e.name.clone(),
                    query_type: e.query_type,
                    response: e.response.clone(),
                    created_at: e.created_at,
                    ttl: e.ttl,
                };
                kept.push(copy);
                assert(kept@.map_values(|e: CacheEntry| e@) == entries_not_named(s.take(i as int), t).push(e@));
            }
            i = i + 1;
        }
        assert(s.take(n as int) == s);
        self.entries = kept;
        proof {
            lemma_not_named_distinct(s, t);
        }
        removed
    }

    /// Number of entries, and total bytes of their responses (saturating at
    /// `usize::MAX`).
    pub fn stats(&self) -> (st: CacheStats)
        ensures
            st.entries == self@.len(),
            st.size_bytes == min_of(total_bytes(self@), usize::MAX as int),
    {
        let mut size: usize = 0;
        let mut i: usize = 0;
        while i < self.entries.len()
            invariant
                i <= self.entries.len(),
                self@.len() == self.entries.len(),
                size == min_of(total_bytes(self@.take(i as int)), usize::MAX as int),
            decreases self.entries.len() - i,
        {
            assert(self@[i as int] == self.entries@[i as int]@);
            assert(self@.take(i + 1).drop_last() == self@.take(i as int));
            size = size.saturating_add(self.entries[i].response.len());
            i = i + 1;
        }
        assert(self@.take(self.entries.len() as int) == self@);
        CacheStats { entries: self.entries.len(), size_bytes: size }
    }
}

/// Thread-safe handle on a `DnsCache`. Other handles may change the cache
/// between two calls, so each result is stated for some well-formed state
/// of the cache at the time of the call.
pub struct SharedCache {
    pub(crate) inner: Arc<RwLock<DnsCache, WellFormedCache>>,
}

impl Clone for SharedCache {
    /// Another handle on the same cache.
    fn clone(&self) -> (res: Self)
        ensures
            res.max_ttl() == self.max_ttl(),
            res.mark() == self.mark(),
    {
        SharedCache { inner: Arc::clone(&self.inner) }
    }
}

impl SharedCache {
    /// The longest time, in seconds, that the cache keeps a response.
    pub closed spec fn max_ttl(&self) -> u64 {
        self.inner.pred().max_ttl
    }

    /// The mark of the cache that this handle guards: every state that the
    /// handle's operations read or leave bears it.
    pub closed spec fn mark(&self) -> int {
        self.inner.pred().mark@
    }

    /// The cap and the mark are those of the lock's invariant.
    pub(crate) proof fn lemma_lock_facts(&self)
        ensures
            self.mark() == self.inner.pred().mark@,
            self.max_ttl() == self.inner.pred().max_ttl,
    {
    }

    /// A handle on a new, empty cache that keeps responses at most `max_ttl` seconds.
    pub fn new(max_ttl: u64) -> (c: Self)
        ensures
            c.max_ttl() == max_ttl,
    {
        let cache = DnsCache::new(max_ttl);
        let ghost m = cache.mark();
        SharedCache { inner: Arc::new(RwLock::new(cache, Ghost(WellFormedCache { max_ttl, mark: Ghost(m) }))) }
    }

    /// The cached response for `(name, query_type)` if fresh; see `DnsCache::get`.
    /// The cache read is the one this handle guards.
    pub fn get(&self, name: &str, query_type: u16) -> (r: Option<Vec<u8>>)
        ensures
            exists|c: DnsCache, now: u128| #![trigger c.wf(), lookup_at(c@, name@, query_type, now)]
                c.wf() && c.mark() == self.mark() && (match r {
                    Some(b) => Some(b@),
                    None => None,
                }) == lookup_at(c@, name@, query_type, now).0,
    {
        let (mut cache, handle) = self.inner.acquire_write();
        let ghost before = cache;
        let r = cache.get(name, query_type);
        handle.release_write(cache);
        proof {
            assert(before.wf() && before.mark() == self.mark());
        }
        r
    }

    /// Stores a response; see `DnsCache::put`, taken with the cache
    /// locked. The cache it is stored in is the one this handle guards.
    pub fn put(&self, name: &str, query_type: u16, response: Vec<u8>)
        ensures
            exists|before: DnsCache, after: DnsCache, now: u128|
                #![trigger before.wf(), after.wf(), stored_at(before@, name@, query_type, response@, now, self.max_ttl())]
                before.wf() && after.wf() && before.mark() == self.mark() && after.mark() == self.mark()
                    && after@ == stored_at(before@, name@, query_type, response@, now, self.max_ttl()),
    {
        let (mut cache, handle) = self.inner.acquire_write();
        let ghost before = cache;
        cache.put(name, query_type, response);
        let ghost after = cache;
        handle.release_write(cache);
        proof {
            assert(before.wf() && after.wf() && before.max_ttl_secs() == self.max_ttl());
            let now = choose|now: u128| after@ == #[trigger] stored_at(before@, name@, query_type, response@, now, before.max_ttl_secs());
            assert(after@ == stored_at(before@, name@, query_type, response@, now, self.max_ttl()));
        }
    }

    /// Flushes all entries of the cache this handle guards; gives how many
    /// there were. The cache left behind is empty.
    pub fn flush(&self) -> (n: usize)
        ensures
            exists|before: DnsCache, after: DnsCache| #![trigger before.wf(), after.wf()]
                before.wf() && after.wf() && before.mark() == self.mark() && after.mark() == self.mark()
                    && n == before@.len() && after@ == Seq::<EntryView>::empty(),
    {
        let (mut cache, handle) = self.inner.acquire_write();
        let ghost before = cache;
        let n = cache.flush();
        let ghost after = cache;
        handle.release_write(cache);
        proof {
            assert(before.wf() && after.wf());
        }
        n
    }

    /// Flushes the entries of a domain name from the cache this handle
    /// guards; gives how many there were. The cache left behind holds the
    /// other entries.
    pub fn flush_domain(&self, name: &str) -> (n: usize)
        ensures
            exists|before: DnsCache, after: DnsCache| #![trigger before.wf(), after.wf()]
                before.wf() && after.wf() && before.mark() == self.mark() && after.mark() == self.mark()
                    && after@ == entries_not_named(before@, canonical_name(name@))
                    && n == before@.len() - after@.len(),
    {
        let (mut cache, handle) = self.inner.acquire_write();
        let ghost before = cache;
        let n = cache.flush_domain(name);
        let ghost after = cache;
        handle.release_write(cache);
        proof {
            assert(before.wf() && after.wf());
        }
        n
    }

    /// Cache size figures of the cache this handle guards; see `DnsCache::stats`.
    pub fn stats(&self) -> (st: CacheStats)
        ensures
            exists|c: DnsCache| #![trigger c.wf()] c.wf() && c.mark() == self.mark() && st.entries == c@.len()
                && st.size_bytes == min_of(total_bytes(c@), usize::MAX as int),
    {
        let handle = self.inner.acquire_read();
        let cache = handle.borrow();
        let st = cache.stats();
        proof {
            assert(cache.wf());
        }
        handle.release_read();
        st
    }
}

} // verus!
