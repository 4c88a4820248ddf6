//! Key–value caches with per-entry time-to-live and lazy expiry.
//!
//! The clock is injected, in milliseconds since the epoch, matching the
//! job registry: every operation that depends on the current time takes
//! it as a parameter, so expiry is fully checkable.

use vstd::prelude::*;

use crate::models::Problem;
use crate::parse::{AIParseResult, ParsedProblem, ProblemView};

use sha2::Digest;

verus! {

// --- the generic timed cache ---

/// One cache slot as the specification sees it.
pub struct CacheItemView<V> {
    pub key: Seq<char>,
    pub value: V,
    pub created_at: u64,
    pub ttl_ms: u64,
}

/// The view of one stored entry.
pub open spec fn spec_item_of<V>(e: (String, CacheEntry<V>)) -> CacheItemView<V> {
    CacheItemView {
        key: e.0@,
        value: e.1.value,
        created_at: e.1.created_at,
        ttl_ms: e.1.ttl_ms,
    }
}

/// The view of a whole entry list.
pub open spec fn spec_items_of<V>(s: Seq<(String, CacheEntry<V>)>) -> Seq<CacheItemView<V>> {
    s.map_values(|e: (String, CacheEntry<V>)| spec_item_of(e))
}

/// A cache entry with its expiry data.
pub struct CacheEntry<V> {
    pub value: V,
    pub created_at: u64,
    pub ttl_ms: u64,
}

/// In-memory key–value store with per-entry time-to-live.
pub struct TimedCache<V> {
    entries: Vec<(String, CacheEntry<V>)>,
    default_ttl_ms: u64,
}

impl<V> View for TimedCache<V> {
    type V = Seq<CacheItemView<V>>;

    closed spec fn view(&self) -> Seq<CacheItemView<V>> {
        spec_items_of(self.entries@)
    }
}

/// Index of the first slot holding `k`; `-1` when none does.
pub open spec fn spec_key_index<V>(s: Seq<CacheItemView<V>>, k: Seq<char>) -> int
    decreases s.len(),
{
    if s.len() == 0 {
        -1
    } else if s[0].key == k {
        0
    } else {
        let r = spec_key_index(s.drop_first(), k);
        if r < 0 {
            -1
        } else {
            r + 1
        }
    }
}

pub proof fn lemma_key_index_bounds<V>(s: Seq<CacheItemView<V>>, k: Seq<char>)
    ensures
        -1 <= spec_key_index(s, k) < s.len(),
        spec_key_index(s, k) >= 0 ==> s[spec_key_index(s, k)].key == k,
    decreases s.len(),
{
    if s.len() > 0 && s[0].key != k {
        lemma_key_index_bounds(s.drop_first(), k);
    }
}

proof fn lemma_key_index_skip<V>(s: Seq<CacheItemView<V>>, k: Seq<char>, i: int)
    requires
        0 <= i <= s.len(),
        forall|j: int| 0 <= j < i ==> s[j].key != k,
    ensures
        ({
            let r = spec_key_index(s.subrange(i, s.len() as int), k);
            spec_key_index(s, k) == if r < 0 {
                -1
            } else {
                i + r
            }
        }),
    decreases i,
{
    if i == 0 {
        assert(s.subrange(0, s.len() as int) =~= s);
    } else {
        // peel one element off the front
        let t = s.drop_first();
        assert(s.len() > 0 && s[0].key != k);
        assert forall|j: int| 0 <= j < i - 1 implies t[j].key != k by {
            assert(t[j] == s[j + 1]);
        }
        lemma_key_index_skip(t, k, i - 1);
        assert(t.subrange(i - 1, t.len() as int) =~= s.subrange(i, s.len() as int));
        lemma_key_index_bounds(t.subrange(i - 1, t.len() as int), k);
    }
}

/// An entry set at `created_at` with this time-to-live has expired at `now`.
pub open spec fn spec_expired(created_at: u64, ttl_ms: u64, now: u64) -> bool {
    now > created_at + ttl_ms
}

/// What a lookup at `now` yields.
pub open spec fn spec_cache_get<V>(s: Seq<CacheItemView<V>>, k: Seq<char>, now: u64) -> Option<V> {
    let i = spec_key_index(s, k);
    if i < 0 {
        None::<V>
    } else if spec_expired(s[i].created_at, s[i].ttl_ms, now) {
        None::<V>
    } else {
        Some(s[i].value)
    }
}

/// The store after setting `k` to `v` at `now`: the slot already holding
/// `k` is overwritten, else a slot is appended.
pub open spec fn spec_cache_set<V>(
    s: Seq<CacheItemView<V>>,
    k: Seq<char>,
    v: V,
    now: u64,
    ttl_ms: u64,
) -> Seq<CacheItemView<V>> {
    let i = spec_key_index(s, k);
    let item = CacheItemView { key: k, value: v, created_at: now, ttl_ms };
    if i < 0 {
        s.push(item)
    } else {
        s.update(i, item)
    }
}


/// The store with every expired entry dropped, order kept.
pub open spec fn spec_cache_cleanup<V>(s: Seq<CacheItemView<V>>, now: u64) -> Seq<CacheItemView<V>>
    decreases s.len(),
{
    if s.len() == 0 {
        Seq::<CacheItemView<V>>::empty()
    } else {
        let rest = spec_cache_cleanup(s.drop_first(), now);
        if spec_expired(s[0].created_at, s[0].ttl_ms, now) {
            rest
        } else {
            seq![s[0]] + rest
        }
    }
}

impl<V> TimedCache<V> {
    /// The time-to-live used when `set` is called without one.
    pub closed spec fn default_ttl(&self) -> u64 {
        self.default_ttl_ms
    }

    pub fn new(default_ttl_ms: u64) -> (r: TimedCache<V>)
        ensures
            r@ == Seq::<CacheItemView<V>>::empty(),
            r.default_ttl() == default_ttl_ms,
    {
        let r = TimedCache { entries: Vec::new(), default_ttl_ms };
        proof {
            assert(r@ =~= Seq::<CacheItemView<V>>::empty());
        }
        r
    }

    /// Find the slot holding `key`.
    fn find_index(&self, key: &str) -> (r: Option<usize>)
        ensures
            match r {
                Some(i) => i == spec_key_index(self@, key@) && i < self@.len(),
                None => spec_key_index(self@, key@) == -1,
            },
    {
        let owned = key.to_owned();
        let n = self.entries.len();
        let mut i: usize = 0;
        while i < n
            invariant
                i <= n,
                n == self@.len(),
                owned@ == key@,
                n == self.entries@.len(),
                forall|j: int| 0 <= j < i ==> self@[j].key != key@,
            decreases n - i,
        {
            proof {
                assert(self@[i as int].key == self.entries@[i as int].0@);
            }
            if self.entries[i].0 == owned {
                proof {
                    lemma_key_index_skip(self@, key@, i as int);
                    let t = self@.subrange(i as int, n as int);
                    assert(t[0] == self@[i as int]);
                }
                return Some(i);
            }
            i = i + 1;
        }
        proof {
            lemma_key_index_skip(self@, key@, n as int);
            assert(self@.subrange(n as int, n as int) =~= Seq::<CacheItemView<V>>::empty());
        }
        None
    }

    /// Look `key` up; an expired entry reads as absent.
    pub fn get(&self, key: &str, now: u64) -> (r: Option<&V>)
        ensures
            match r {
                Some(v) => spec_cache_get(self@, key@, now) == Some(*v),
                None => spec_cache_get(self@, key@, now) is None,
            },
    {
        let idx = self.find_index(key);
        match idx {
            Some(i) => {
                let e = &self.entries[i].1;
                proof {
                    assert(self@[i as int].created_at == e.created_at);
                }
                if now > e.created_at && now - e.created_at > e.ttl_ms {
                    None
                } else {
                    proof {
                        assert(!spec_expired(
                            self@[i as int].created_at,
                            self@[i as int].ttl_ms,
                            now,
                        ));
                    }
                    Some(&e.value)
                }
            },
            None => None,
        }
    }

    /// Store under the default time-to-live.
    pub fn set(&mut self, key: &str, value: V, now: u64)
        ensures
            final(self)@ == spec_cache_set(old(self)@, key@, value, now, old(self).default_ttl()),
            final(self).default_ttl() == old(self).default_ttl(),
    {
        let ttl = self.default_ttl_ms;
        self.set_with_ttl(key, value, ttl, now);
    }

    /// Store with an explicit time-to-live.
    pub fn set_with_ttl(&mut self, key: &str, value: V, ttl_ms: u64, now: u64)
        ensures
            final(self)@ == spec_cache_set(old(self)@, key@, value, now, ttl_ms),
            final(self).default_ttl() == old(self).default_ttl(),
    {
        let idx = self.find_index(key);
        let entry = CacheEntry { value, created_at: now, ttl_ms };
        let owned = key.to_owned();
        match idx {
            Some(i) => {
                let slot = &mut self.entries[i];
                *slot = (owned, entry);
                proof {
                    assert(final(self)@ =~= spec_cache_set(
                        old(self)@,
                        key@,
                        entry.value,
                        now,
                        ttl_ms,
                    ));
                }
            },
            None => {
                self.entries.push((owned, entry));
                proof {
                    assert(final(self)@ =~= spec_cache_set(
                        old(self)@,
                        key@,
                        entry.value,
                        now,
                        ttl_ms,
                    ));
                }
            },
        }
    }

    /// Drop the slot holding `key`, if any.
    pub fn remove(&mut self, key: &str)
        ensures
            ({
                let i = spec_key_index(old(self)@, key@);
                if i < 0 {
                    final(self)@ == old(self)@
                } else {
                    final(self)@ == old(self)@.remove(i)
                }
            }),
            final(self).default_ttl() == old(self).default_ttl(),
    {
        let idx = self.find_index(key);
        if let Some(i) = idx {
            let _ = self.entries.remove(i);
            proof {
                assert(final(self)@ =~= old(self)@.remove(
                    spec_key_index(old(self)@, key@),
                ));
            }
        }
    }

    /// Drop everything.
    pub fn clear(&mut self)
        ensures
            final(self)@ == Seq::<CacheItemView<V>>::empty(),
            final(self).default_ttl() == old(self).default_ttl(),
    {
        self.entries.clear();
        proof {
            assert(final(self)@ =~= Seq::<CacheItemView<V>>::empty());
        }
    }

    /// Evict every expired entry; the rest keep their order.
    pub fn cleanup(&mut self, now: u64)
        ensures
            final(self)@ == spec_cache_cleanup(old(self)@, now),
            final(self).default_ttl() == old(self).default_ttl(),
    {
        let ghost orig = old(self)@;
        let mut kept: Vec<(String, CacheEntry<V>)> = Vec::new();
        proof {
            assert(spec_items_of(kept@) =~= Seq::<CacheItemView<V>>::empty());
        }
        while self.entries.len() > 0
            invariant
                self.default_ttl_ms == old(self).default_ttl_ms,
                spec_cache_cleanup(orig, now) == spec_items_of(kept@) + spec_cache_cleanup(
                    spec_items_of(self.entries@),
                    now,
                ),
            decreases self.entries@.len(),
        {
            let ghost old_entries = self.entries@;
            let ghost kept_before = spec_items_of(kept@);
            proof {
                assert(spec_items_of(old_entries)[0] == spec_item_of(old_entries[0]));
            }
            let e = self.entries.remove(0);
            let ghost ev = spec_item_of(e);
            proof {
                assert(e == old_entries[0]);
                assert(self.entries@ =~= old_entries.drop_first());
                assert forall|j: int|
                    0 <= j < self.entries@.len() implies #[trigger] spec_items_of(self.entries@)[j]
                    == spec_items_of(old_entries).drop_first()[j] by {
                    assert(self.entries@[j] == old_entries[j + 1]);
                    assert(spec_items_of(self.entries@)[j] == spec_item_of(self.entries@[j]));
                    assert(spec_items_of(old_entries)[j + 1] == spec_item_of(old_entries[j + 1]));
                }
                assert(spec_items_of(self.entries@) =~= spec_items_of(old_entries).drop_first());
            }
            let expired_now = now > e.1.created_at && now - e.1.created_at > e.1.ttl_ms;
            proof {
                assert(ev.created_at == e.1.created_at);
                assert(expired_now == spec_expired(ev.created_at, ev.ttl_ms, now));
                assert(spec_cache_cleanup(spec_items_of(old_entries), now) == if expired_now {
                    spec_cache_cleanup(spec_items_of(self.entries@), now)
                } else {
                    seq![ev] + spec_cache_cleanup(spec_items_of(self.entries@), now)
                });
            }
            if !expired_now {
                kept.push(e);
                proof {
                    assert(spec_items_of(kept@) =~= kept_before.push(ev));
                    assert(kept_before + (seq![ev] + spec_cache_cleanup(
                        spec_items_of(self.entries@),
                        now,
                    )) =~= spec_items_of(kept@) + spec_cache_cleanup(
                        spec_items_of(self.entries@),
                        now,
                    ));
                }
            }
        }
        proof {
            assert(spec_items_of(self.entries@).len() == 0);
            assert(spec_cache_cleanup(spec_items_of(self.entries@), now)
                == Seq::<CacheItemView<V>>::empty());
            assert(spec_items_of(kept@) + Seq::<CacheItemView<V>>::empty() =~= spec_items_of(
                kept@,
            ));
        }
        self.entries = kept;
    }

    /// Number of slots, expired ones included.
    pub fn len(&self) -> (r: usize)
        ensures
            r == self@.len(),
    {
        self.entries.len()
    }

    pub fn is_empty(&self) -> (r: bool)
        ensures
            r == (self@.len() == 0),
    {
        self.len() == 0
    }
}

// --- laws of the timed cache ---

proof fn lemma_key_index_push<V>(s: Seq<CacheItemView<V>>, k: Seq<char>, item: CacheItemView<V>)
    requires
        spec_key_index(s, k) == -1,
        item.key == k,
    ensures
        spec_key_index(s.push(item), k) == s.len(),
    decreases s.len(),
{
    if s.len() == 0 {
        assert(s.push(item)[0] == item);
    } else {
        assert(s[0].key != k);
        assert(s.push(item)[0] == s[0]);
        assert(s.push(item).drop_first() =~= s.drop_first().push(item));
        lemma_key_index_push(s.drop_first(), k, item);
    }
}

proof fn lemma_key_index_update<V>(
    s: Seq<CacheItemView<V>>,
    k: Seq<char>,
    i: int,
    item: CacheItemView<V>,
)
    requires
        0 <= i < s.len(),
        spec_key_index(s, k) == i,
        item.key == k,
    ensures
        spec_key_index(s.update(i, item), k) == i,
    decreases s.len(),
{
    lemma_key_index_bounds(s, k);
    if i == 0 {
        assert(s.update(0, item)[0] == item);
    } else {
        assert(s[0].key != k);
        assert(s.update(i, item)[0] == s[0]);
        assert(s.update(i, item).drop_first() =~= s.drop_first().update(i - 1, item));
        assert(spec_key_index(s.drop_first(), k) == i - 1);
        lemma_key_index_update(s.drop_first(), k, i - 1, item);
    }
}

/// A value stored under a key is read back exactly while its time-to-live
/// has not elapsed, and reads as absent once it has.
pub proof fn lemma_cache_set_then_get<V>(
    s: Seq<CacheItemView<V>>,
    k: Seq<char>,
    v: V,
    set_time: u64,
    ttl_ms: u64,
    get_time: u64,
)
    ensures
        get_time <= set_time + ttl_ms ==> spec_cache_get(
            spec_cache_set(s, k, v, set_time, ttl_ms),
            k,
            get_time,
        ) == Some(v),
        get_time > set_time + ttl_ms ==> spec_cache_get(
            spec_cache_set(s, k, v, set_time, ttl_ms),
            k,
            get_time,
        ) is None,
{
    let i = spec_key_index(s, k);
    let item = CacheItemView { key: k, value: v, created_at: set_time, ttl_ms };
    lemma_key_index_bounds(s, k);
    if i < 0 {
        lemma_key_index_push(s, k, item);
        assert(s.push(item)[s.len() as int] == item);
    } else {
        lemma_key_index_update(s, k, i, item);
        assert(s.update(i, item)[i] == item);
    }
}

/// A lookup hits only on a key that some slot actually holds: what was
/// never stored is never returned.
pub proof fn lemma_cache_get_needs_key<V>(s: Seq<CacheItemView<V>>, k: Seq<char>, now: u64)
    ensures
        spec_cache_get(s, k, now) is Some ==> exists|i: int|
            0 <= i < s.len() && #[trigger] s[i].key == k,
{
    if spec_cache_get(s, k, now) is Some {
        lemma_key_index_bounds(s, k);
        assert(s[spec_key_index(s, k)].key == k);
    }
}

// --- the parse-result cache ---

/// What the digest of a text reads as; relied on below.
pub uninterp spec fn sha256_hex_of(s: Seq<char>) -> Seq<char>;

/// Relies on sha2's Sha256: 64 lowercase hex digits of the digest of the
/// text's bytes, a function of the text alone.
#[verifier::external_body]
pub fn sha256_hex(text: &str) -> (r: String)
    ensures
        r@ == sha256_hex_of(text@),
        r@.len() == 64,
{
    let mut hasher = sha2::Sha256::new();
    hasher.update(text.as_bytes());
    format!("{:x}", hasher.finalize())
}

impl AIParseResult {
    /// Copy this parse result.
    pub fn dup(&self) -> (r: AIParseResult)
        ensures
            r@ == self@,
    {
        let mut problems: Vec<ParsedProblem> = Vec::new();
        let mut i: usize = 0;
        while i < self.problems.len()
            invariant
                i <= self.problems@.len(),
                problems@.map_values(|p: ParsedProblem| p@) =~= self.problems@.map_values(
                    |p: ParsedProblem| p@,
                ).subrange(0, i as int),
            decreases self.problems@.len() - i,
        {
            let d = self.problems[i].dup();
            let ghost old_map = problems@.map_values(|p: ParsedProblem| p@);
            let ghost dv = d@;
            problems.push(d);
            proof {
                let f = |p: ParsedProblem| p@;
                assert(problems@.map_values(f) =~= old_map.push(dv));
                assert(self.problems@.map_values(f).subrange(0, i + 1) =~= self.problems@.map_values(
                    f,
                ).subrange(0, i as int).push(self.problems@.map_values(f)[i as int]));
                assert(self.problems@.map_values(f)[i as int] == self.problems@[i as int]@);
                assert(problems@.map_values(f) =~= self.problems@.map_values(f).subrange(0, i + 1));
            }
            i = i + 1;
        }
        proof {
            let f = |p: ParsedProblem| p@;
            assert(problems@.map_values(f) =~= self.problems@.map_values(f));
        }
        AIParseResult { problems }
    }
}

/// Cache of parse results, addressed by the digest of the exact text, so
/// that identical page text hits whenever it was produced.
pub struct AIParseCache {
    cache: TimedCache<AIParseResult>,
}

impl View for AIParseCache {
    type V = Seq<CacheItemView<AIParseResult>>;

    closed spec fn view(&self) -> Seq<CacheItemView<AIParseResult>> {
        self.cache@
    }
}

/// Seven days, in milliseconds: parse results are expensive and stable.
pub open spec fn spec_parse_cache_ttl() -> u64 {
    604800000
}

impl AIParseCache {
    pub fn new() -> (r: AIParseCache)
        ensures
            r@ == Seq::<CacheItemView<AIParseResult>>::empty(),
    {
        AIParseCache { cache: TimedCache::new(604800000) }
    }

    /// Look up the parse of this exact text.
    pub fn get(&self, ocr_text: &str, now: u64) -> (r: Option<AIParseResult>)
        ensures
            match r {
                Some(v) => spec_cache_get(self@, sha256_hex_of(ocr_text@), now) is Some && v@
                    == spec_cache_get(self@, sha256_hex_of(ocr_text@), now)->Some_0@,
                None => spec_cache_get(self@, sha256_hex_of(ocr_text@), now) is None,
            },
    {
        let key = sha256_hex(ocr_text);
        match self.cache.get(key.as_str(), now) {
            Some(v) => Some(v.dup()),
            None => None,
        }
    }

    /// Cache the parse of this exact text.
    pub fn set(&mut self, ocr_text: &str, result: AIParseResult, now: u64)
        ensures
            final(self)@ == spec_cache_set(
                old(self)@,
                sha256_hex_of(ocr_text@),
                result,
                now,
                spec_parse_cache_ttl(),
            ),
    {
        let key = sha256_hex(ocr_text);
        self.cache.set_with_ttl(key.as_str(), result, 604800000, now);
    }

    pub fn cleanup(&mut self, now: u64)
        ensures
            final(self)@ == spec_cache_cleanup(old(self)@, now),
    {
        self.cache.cleanup(now);
    }
}

// --- the parse cache at the level of problem views ---

/// One parse-cache slot with its stored value read as problem views:
/// the level at which the pipeline's contracts are deterministic.
pub struct VCacheItem {
    pub key: Seq<char>,
    pub created_at: u64,
    pub ttl_ms: u64,
    pub problems: Seq<ProblemView>,
}

pub open spec fn spec_vitem(it: CacheItemView<AIParseResult>) -> VCacheItem {
    VCacheItem {
        key: it.key,
        created_at: it.created_at,
        ttl_ms: it.ttl_ms,
        problems: it.value@,
    }
}

pub open spec fn spec_vcache(c: Seq<CacheItemView<AIParseResult>>) -> Seq<VCacheItem> {
    c.map_values(|it: CacheItemView<AIParseResult>| spec_vitem(it))
}

pub open spec fn spec_vkey_index(vc: Seq<VCacheItem>, k: Seq<char>) -> int
    decreases vc.len(),
{
    if vc.len() == 0 {
        -1
    } else if vc[0].key == k {
        0
    } else {
        let r = spec_vkey_index(vc.drop_first(), k);
        if r < 0 {
            -1
        } else {
            r + 1
        }
    }
}

/// The projection keeps every key in place.
pub proof fn lemma_vkey_index(c: Seq<CacheItemView<AIParseResult>>, k: Seq<char>)
    ensures
        spec_vkey_index(spec_vcache(c), k) == spec_key_index(c, k),
    decreases c.len(),
{
    if c.len() > 0 {
        assert(spec_vcache(c)[0] == spec_vitem(c[0]));
        assert forall|j: int|
            0 <= j < c.drop_first().len() implies #[trigger] spec_vcache(c.drop_first())[j]
            == spec_vcache(c).drop_first()[j] by {
            assert(spec_vcache(c.drop_first())[j] == spec_vitem(c.drop_first()[j]));
            assert(spec_vcache(c).drop_first()[j] == spec_vcache(c)[j + 1]);
            assert(spec_vcache(c)[j + 1] == spec_vitem(c[j + 1]));
            assert(c.drop_first()[j] == c[j + 1]);
        }
        assert(spec_vcache(c.drop_first()) =~= spec_vcache(c).drop_first());
        lemma_vkey_index(c.drop_first(), k);
    }
}

/// A lookup at the view level.
pub open spec fn spec_vget(vc: Seq<VCacheItem>, k: Seq<char>, now: u64) -> Option<
    Seq<ProblemView>,
> {
    let i = spec_vkey_index(vc, k);
    if i < 0 {
        None::<Seq<ProblemView>>
    } else if spec_expired(vc[i].created_at, vc[i].ttl_ms, now) {
        None::<Seq<ProblemView>>
    } else {
        Some(vc[i].problems)
    }
}

/// A store at the view level.
pub open spec fn spec_vset(
    vc: Seq<VCacheItem>,
    k: Seq<char>,
    ps: Seq<ProblemView>,
    now: u64,
    ttl_ms: u64,
) -> Seq<VCacheItem> {
    let i = spec_vkey_index(vc, k);
    let item = VCacheItem { key: k, created_at: now, ttl_ms, problems: ps };
    if i < 0 {
        vc.push(item)
    } else {
        vc.update(i, item)
    }
}

/// A value-level lookup reads, at the view level, exactly as its
/// projection.
pub proof fn lemma_vget(c: Seq<CacheItemView<AIParseResult>>, k: Seq<char>, now: u64)
    ensures
        spec_vget(spec_vcache(c), k, now) == match spec_cache_get(c, k, now) {
            Some(v) => Some(v@),
            None => None::<Seq<ProblemView>>,
        },
{
    lemma_vkey_index(c, k);
    lemma_key_index_bounds(c, k);
    let i = spec_key_index(c, k);
    if i >= 0 {
        assert(spec_vcache(c)[i] == spec_vitem(c[i]));
    }
}

/// A value-level store projects to the view-level store.
pub proof fn lemma_vset(
    c: Seq<CacheItemView<AIParseResult>>,
    k: Seq<char>,
    v: AIParseResult,
    now: u64,
    ttl_ms: u64,
)
    ensures
        spec_vcache(spec_cache_set(c, k, v, now, ttl_ms)) == spec_vset(
            spec_vcache(c),
            k,
            v@,
            now,
            ttl_ms,
        ),
{
    lemma_vkey_index(c, k);
    lemma_key_index_bounds(c, k);
    let i = spec_key_index(c, k);
    let item = CacheItemView { key: k, value: v, created_at: now, ttl_ms };
    if i < 0 {
        assert forall|j: int|
            0 <= j < c.len() + 1 implies #[trigger] spec_vcache(c.push(item))[j] == spec_vset(
            spec_vcache(c),
            k,
            v@,
            now,
            ttl_ms,
        )[j] by {
            assert(spec_vcache(c.push(item))[j] == spec_vitem(c.push(item)[j]));
            if j < c.len() {
                assert(c.push(item)[j] == c[j]);
                assert(spec_vcache(c)[j] == spec_vitem(c[j]));
            } else {
                assert(c.push(item)[j] == item);
            }
        }
        assert(spec_vcache(c.push(item)) =~= spec_vset(spec_vcache(c), k, v@, now, ttl_ms));
    } else {
        assert forall|j: int|
            0 <= j < c.len() implies #[trigger] spec_vcache(c.update(i, item))[j] == spec_vset(
            spec_vcache(c),
            k,
            v@,
            now,
            ttl_ms,
        )[j] by {
            assert(spec_vcache(c.update(i, item))[j] == spec_vitem(c.update(i, item)[j]));
            if j != i {
                assert(c.update(i, item)[j] == c[j]);
                assert(spec_vcache(c)[j] == spec_vitem(c[j]));
            } else {
                assert(c.update(i, item)[j] == item);
            }
        }
        assert(spec_vcache(c.update(i, item)) =~= spec_vset(spec_vcache(c), k, v@, now, ttl_ms));
    }
}

// --- the formula-search cache ---

/// What case folding a query reads as; relied on below.
pub uninterp spec fn lower_of(s: Seq<char>) -> Seq<char>;

/// Relies on str::to_lowercase: the result depends on the characters
/// alone.
#[verifier::external_body]
fn lowercase(s: &str) -> (r: String)
    ensures
        r@ == lower_of(s@),
{
    s.to_lowercase()
}

/// Cache of formula-search results, keyed by the folded, trimmed query.
pub struct FormulaSearchCache {
    cache: TimedCache<Vec<Problem>>,
}

impl View for FormulaSearchCache {
    type V = Seq<CacheItemView<Vec<Problem>>>;

    closed spec fn view(&self) -> Seq<CacheItemView<Vec<Problem>>> {
        self.cache@
    }
}

/// One hour, in milliseconds: search results change as data grows.
pub open spec fn spec_search_cache_ttl() -> u64 {
    3600000
}

/// The cache key of a query: case-folded, then trimmed.
pub open spec fn spec_query_key(q: Seq<char>) -> Seq<char> {
    crate::text::spec_trim(lower_of(q))
}

impl FormulaSearchCache {
    pub fn new() -> (r: FormulaSearchCache)
        ensures
            r@ == Seq::<CacheItemView<Vec<Problem>>>::empty(),
    {
        FormulaSearchCache { cache: TimedCache::new(3600000) }
    }

    fn query_key(query: &str) -> (r: String)
        ensures
            r@ == spec_query_key(query@),
    {
        let folded = lowercase(query);
        let v = crate::text::chars_of(folded.as_str());
        let t = crate::text::trim_chars(&v);
        crate::text::string_of(&t)
    }

    pub fn get(&self, query: &str, now: u64) -> (r: Option<&Vec<Problem>>)
        ensures
            match r {
                Some(v) => spec_cache_get(self@, spec_query_key(query@), now) == Some(*v),
                None => spec_cache_get(self@, spec_query_key(query@), now) is None,
            },
    {
        let key = Self::query_key(query);
        self.cache.get(key.as_str(), now)
    }

    pub fn set(&mut self, query: &str, results: Vec<Problem>, now: u64)
        ensures
            final(self)@ == spec_cache_set(
                old(self)@,
                spec_query_key(query@),
                results,
                now,
                spec_search_cache_ttl(),
            ),
    {
        let key = Self::query_key(query);
        self.cache.set_with_ttl(key.as_str(), results, 3600000, now);
    }

    pub fn invalidate(&mut self)
        ensures
            final(self)@ == Seq::<CacheItemView<Vec<Problem>>>::empty(),
    {
        self.cache.clear();
    }
}

// --- the export cache ---

/// Cache of generated export files, keyed by book and format.
pub struct ExportCache {
    cache: TimedCache<Vec<u8>>,
}

impl View for ExportCache {
    type V = Seq<CacheItemView<Vec<u8>>>;

    closed spec fn view(&self) -> Seq<CacheItemView<Vec<u8>>> {
        self.cache@
    }
}

/// A day, in milliseconds: exports are large and change rarely.
pub open spec fn spec_export_cache_ttl() -> u64 {
    86400000
}

/// The cache key of an export: `{book_id}:{format}`.
pub open spec fn spec_export_key(book: Seq<char>, format: Seq<char>) -> Seq<char> {
    book + seq![':'] + format
}

impl ExportCache {
    pub fn new() -> (r: ExportCache)
        ensures
            r@ == Seq::<CacheItemView<Vec<u8>>>::empty(),
    {
        ExportCache { cache: TimedCache::new(86400000) }
    }

    fn export_key(book_id: &str, format: &str) -> (r: String)
        ensures
            r@ == spec_export_key(book_id@, format@),
    {
        let mut v = crate::text::chars_of(book_id);
        v.push(':');
        let f = crate::text::chars_of(format);
        crate::text::push_all(&mut v, &f);
        proof {
            assert(v@ =~= spec_export_key(book_id@, format@));
        }
        crate::text::string_of(&v)
    }

    pub fn get(&self, book_id: &str, format: &str, now: u64) -> (r: Option<Vec<u8>>)
        ensures
            match r {
                Some(v) => spec_cache_get(self@, spec_export_key(book_id@, format@), now) is Some
                    && v@ == spec_cache_get(self@, spec_export_key(book_id@, format@), now)
                    ->Some_0@,
                None => spec_cache_get(self@, spec_export_key(book_id@, format@), now) is None,
            },
    {
        let key = Self::export_key(book_id, format);
        match self.cache.get(key.as_str(), now) {
            Some(v) => {
                let mut out: Vec<u8> = Vec::new();
                let mut i: usize = 0;
                while i < v.len()
                    invariant
                        i <= v@.len(),
                        out@ =~= v@.subrange(0, i as int),
                    decreases v@.len() - i,
                {
                    out.push(v[i]);
                    proof {
                        assert(out@ =~= v@.subrange(0, i + 1));
                    }
                    i = i + 1;
                }
                proof {
                    assert(out@ =~= v@);
                }
                Some(out)
            },
            None => None,
        }
    }

    pub fn set(&mut self, book_id: &str, format: &str, data: Vec<u8>, now: u64)
        ensures
            final(self)@ == spec_cache_set(
                old(self)@,
                spec_export_key(book_id@, format@),
                data,
                now,
                spec_export_cache_ttl(),
            ),
    {
        let key = Self::export_key(book_id, format);
        self.cache.set_with_ttl(key.as_str(), data, 86400000, now);
    }

    /// Drop every cached export.
    pub fn invalidate_book(&mut self, book_id: &str)
        ensures
            final(self)@ == Seq::<CacheItemView<Vec<u8>>>::empty(),
    {
        let _ = book_id;
        self.cache.clear();
    }
}

} // verus!
