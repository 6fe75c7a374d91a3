//! Response cache for calls that the routing layer marks cacheable. An entry
//! is served only while it is live (`now < stored + ttl`); entries are never
//! changed after insertion, only replaced or evicted. When full, the least
//! recently used entry makes room.
use vstd::prelude::*;
use crate::identity::Fingerprint;

verus! {

/// The category of an API call.
#[derive(Clone, Copy, Debug, PartialEq, Eq, Structural)]
pub enum CallKind {
    Query,
    Update,
    ReadState,
}

/// Deterministic fingerprint of a call: where it goes, what kind it is, and
/// the hash of its payload.
#[derive(Clone, Copy, Debug, PartialEq, Eq, Structural)]
pub struct CacheKey {
    pub scope: u64,
    pub kind: CallKind,
    pub payload_hash: Fingerprint,
}

#[derive(Clone, Debug)]
pub struct CacheEntry {
    pub key: CacheKey,
    pub response: Vec<u8>,
    pub stored_ms: u64,
    pub ttl_ms: u64,
    /// Use counter value of the last store or hit.
    pub last_used: u64,
}

/// A bounded response cache.
pub struct Cache {
    pub capacity: usize,
    pub entries: Vec<CacheEntry>,
    /// Counts stores and hits, to order entries by recent use.
    pub uses: u64,
}

/// Whether an entry stored at `stored_ms` for `ttl_ms` may be served at
/// `now_ms`.
pub open spec fn is_live(stored_ms: u64, ttl_ms: u64, now_ms: u64) -> bool {
    now_ms < stored_ms + ttl_ms
}

/// What an entry holds, leaving out when it was last used.
pub open spec fn content(e: CacheEntry) -> (CacheKey, Seq<u8>, u64, u64) {
    (e.key, e.response@, e.stored_ms, e.ttl_ms)
}

fn copy_bytes(v: &Vec<u8>) -> (r: Vec<u8>)
    ensures
        r@ == v@,
{
    let mut r: Vec<u8> = Vec::new();
    let mut i: usize = 0;
    while i < v.len()
        invariant
            i <= v@.len(),
            r@ =~= v@.subrange(0, i as int),
        decreases v@.len() - i,
    {
        r.push(v[i]);
        i += 1;
    }
    assert(r@ =~= v@);
    r
}

impl Cache {
    /// Keys unique and within capacity.
    pub open spec fn wf(&self) -> bool {
        &&& self.entries@.len() <= self.capacity
        &&& forall|i: int, j: int|
            0 <= i < self.entries@.len() && 0 <= j < self.entries@.len() && i != j
                ==> #[trigger] self.entries@[i].key != #[trigger] self.entries@[j].key
    }

    /// Whether the cache has an entry for `key`, live or not.
    pub open spec fn has_key(&self, key: CacheKey) -> bool {
        exists|i: int| 0 <= i < self.entries@.len() && self.entries@[i].key == key
    }

    /// The entry for `key`, if any.
    pub open spec fn entry_for(&self, key: CacheKey) -> Option<(CacheKey, Seq<u8>, u64, u64)> {
        if self.has_key(key) {
            Some(
                content(
                    self.entries@[choose|i: int|
                        0 <= i < self.entries@.len() && self.entries@[i].key == key],
                ),
            )
        } else {
            None
        }
    }

    /// What a lookup of `key` at `now_ms` gives.
    pub open spec fn lookup_result(&self, key: CacheKey, now_ms: u64) -> Option<Seq<u8>> {
        match self.entry_for(key) {
            Some(c) => if is_live(c.2, c.3, now_ms) {
                Some(c.1)
            } else {
                None
            },
            None => None,
        }
    }

    /// An empty cache of at most `capacity` entries.
    pub fn new(capacity: usize) -> (r: Cache)
        ensures
            r.wf(),
            r.capacity == capacity,
            forall|k: CacheKey| !r.has_key(k),
    {
        Cache { capacity, entries: Vec::new(), uses: 0 }
    }

    fn find(&self, key: CacheKey) -> (r: Option<usize>)
        requires
            self.wf(),
        ensures
            r is Some ==> r->Some_0 < self.entries@.len() && self.entries@[r->Some_0 as int].key
                == key && self.entry_for(key) == Some(content(self.entries@[r->Some_0 as int])),
            r is None ==> !self.has_key(key),
    {
        let mut i: usize = 0;
        while i < self.entries.len()
            invariant
                self.wf(),
                i <= self.entries@.len(),
                forall|j: int| 0 <= j < i ==> self.entries@[j].key != key,
            decreases self.entries@.len() - i,
        {
            if self.entries[i].key == key {
                proof {
                    let c = choose|c: int| 0 <= c < self.entries@.len() && self.entries@[c].key == key;
                    assert(c == i as int);
                }
                return Some(i);
            }
            i += 1;
        }
        None
    }

    fn next_use(&mut self) -> (r: u64)
        ensures
            final(self).entries == old(self).entries,
            final(self).capacity == old(self).capacity,
    {
        if self.uses < u64::MAX {
            self.uses = self.uses + 1;
        }
        self.uses
    }

    /// The response stored for `key`, if its entry is still live at
    /// `now_ms`. A hit counts as a use of the entry.
    pub fn lookup(&mut self, key: CacheKey, now_ms: u64) -> (r: Option<Vec<u8>>)
        requires
            old(self).wf(),
        ensures
            final(self).wf(),
            final(self).capacity == old(self).capacity,
            match r {
                Some(v) => old(self).lookup_result(key, now_ms) == Some(v@),
                None => old(self).lookup_result(key, now_ms) is None,
            },
            final(self).entries@.len() == old(self).entries@.len(),
            forall|i: int|
                0 <= i < old(self).entries@.len() ==> content(#[trigger] final(self).entries@[i])
                    == content(old(self).entries@[i]),
    {
        match self.find(key) {
            None => None,
            Some(i) => {
                let e = &self.entries[i];
                if now_ms < e.stored_ms || now_ms - e.stored_ms < e.ttl_ms {
                    let response = copy_bytes(&e.response);
                    let u = self.next_use();
                    let ghost before = self.entries@;
                    let mut updated = self.entries.remove(i);
                    updated.last_used = u;
                    self.entries.insert(i, updated);
                    proof {
                        assert forall|j: int| 0 <= j < before.len() implies content(#[trigger] self.entries@[j]) == content(before[j]) by {
                            if j != i as int {
                                assert(self.entries@[j] == before[j]);
                            }
                        }
                        assert forall|a: int, b: int|
                            0 <= a < self.entries@.len() && 0 <= b < self.entries@.len() && a != b
                            implies #[trigger] self.entries@[a].key != #[trigger] self.entries@[b].key by {
                            assert(self.entries@[a].key == before[a].key);
                            assert(self.entries@[b].key == before[b].key);
                        }
                    }
                    Some(response)
                } else {
                    None
                }
            },
        }
    }

    fn least_recently_used(&self) -> (r: usize)
        requires
            self.entries@.len() > 0,
        ensures
            r < self.entries@.len(),
            forall|j: int| 0 <= j < self.entries@.len() ==> self.entries@[r as int].last_used <= #[trigger] self.entries@[j].last_used,
    {
        let mut best: usize = 0;
        let mut i: usize = 1;
        while i < self.entries.len()
            invariant
                1 <= i <= self.entries@.len(),
                best < i,
                forall|j: int| 0 <= j < i ==> self.entries@[best as int].last_used <= #[trigger] self.entries@[j].last_used,
            decreases self.entries@.len() - i,
        {
            if self.entries[i].last_used < self.entries[best].last_used {
                best = i;
            }
            i += 1;
        }
        best
    }

    /// Stores `response` under `key` at `now_ms` for `ttl_ms`, replacing any
    /// entry for that key. A new key in a full cache evicts the least
    /// recently used entry first. A cache of capacity 0 stores nothing.
    pub fn store(&mut self, key: CacheKey, response: Vec<u8>, now_ms: u64, ttl_ms: u64)
        requires
            old(self).wf(),
        ensures
            final(self).wf(),
            final(self).capacity == old(self).capacity,
            old(self).capacity == 0 ==> final(self).entries@.len() == 0,
            old(self).capacity > 0 ==> final(self).entry_for(key) == Some((key, response@, now_ms, ttl_ms)),
            forall|k: CacheKey| k != key && #[trigger] final(self).has_key(k) ==> final(self).entry_for(k) == old(self).entry_for(k),
            forall|k: CacheKey|
                k != key && old(self).has_key(k) && !#[trigger] final(self).has_key(k) ==> {
                    &&& !old(self).has_key(key)
                    &&& old(self).entries@.len() == old(self).capacity
                    &&& forall|j: int|
                        0 <= j < old(self).entries@.len() && old(self).entries@[j].key == k ==> forall|m: int|
                            0 <= m < old(self).entries@.len() ==> old(self).entries@[j].last_used
                                <= #[trigger] old(self).entries@[m].last_used
                },
    {
        if self.capacity == 0 {
            return;
        }
        let u = self.next_use();
        let entry = CacheEntry { key, response, stored_ms: now_ms, ttl_ms, last_used: u };
        let ghost before = self.entries@;
        match self.find(key) {
            Some(i) => {
                self.entries.set(i, entry);
                proof {
                    assert(self.entries@[i as int].key == key);
                    assert forall|a: int, b: int|
                        0 <= a < self.entries@.len() && 0 <= b < self.entries@.len() && a != b
                        implies #[trigger] self.entries@[a].key != #[trigger] self.entries@[b].key by {
                        assert(self.entries@[a].key == before[a].key);
                        assert(self.entries@[b].key == before[b].key);
                    }
                    assert forall|k: CacheKey| k != key && #[trigger] self.has_key(k) implies self.entry_for(k) == old(self).entry_for(k) by {
                        let j = choose|j: int| 0 <= j < self.entries@.len() && self.entries@[j].key == k;
                        assert(before[j].key == k);
                    }
                    assert forall|k: CacheKey| k != key && old(self).has_key(k) implies #[trigger] self.has_key(k) by {
                        let j = choose|j: int| 0 <= j < before.len() && before[j].key == k;
                        assert(self.entries@[j].key == k);
                    }
                }
            },
            None => {
                if self.entries.len() >= self.capacity {
                    let v = self.least_recently_used();
                    let ghost evicted = before[v as int];
                    self.entries.remove(v);
                    let ghost mid = self.entries@;
                    self.entries.push(entry);
                    proof {
                        let n = mid.len() as int;
                        assert(self.entries@[n].key == key);
                        assert forall|j: int| 0 <= j < mid.len() implies #[trigger] mid[j] == if j < v as int {
                            before[j]
                        } else {
                            before[j + 1]
                        } by {}
                        assert forall|a: int, b: int|
                            0 <= a < self.entries@.len() && 0 <= b < self.entries@.len() && a != b
                            implies #[trigger] self.entries@[a].key != #[trigger] self.entries@[b].key by {
                            if a < n && b < n {
                                let aa = if a < v as int { a } else { a + 1 };
                                let bb = if b < v as int { b } else { b + 1 };
                                assert(mid[a].key == before[aa].key);
                                assert(mid[b].key == before[bb].key);
                            } else if a < n {
                                let aa = if a < v as int { a } else { a + 1 };
                                assert(mid[a].key == before[aa].key);
                            } else if b < n {
                                let bb = if b < v as int { b } else { b + 1 };
                                assert(mid[b].key == before[bb].key);
                            }
                        }
                        assert forall|k: CacheKey| k != key && #[trigger] self.has_key(k) implies self.entry_for(k) == old(self).entry_for(k) by {
                            let j = choose|j: int| 0 <= j < self.entries@.len() && self.entries@[j].key == k;
                            let jj = if j < v as int { j } else { j + 1 };
                            assert(before[jj] == mid[j]);
                            assert(old(self).has_key(k));
                            let c = choose|c: int| 0 <= c < before.len() && before[c].key == k;
                            assert(c == jj);
                        }
                        assert forall|k: CacheKey|
                            k != key && old(self).has_key(k) && !#[trigger] self.has_key(k) implies {
                                &&& !old(self).has_key(key)
                                &&& old(self).entries@.len() == old(self).capacity
                                &&& forall|j: int|
                                    0 <= j < old(self).entries@.len() && old(self).entries@[j].key == k ==> forall|m: int|
                                        0 <= m < old(self).entries@.len() ==> old(self).entries@[j].last_used
                                            <= #[trigger] old(self).entries@[m].last_used
                            } by {
                            let j = choose|j: int| 0 <= j < before.len() && before[j].key == k;
                            if j < v as int {
                                assert(self.entries@[j].key == k);
                            } else if j > v as int {
                                assert(self.entries@[j - 1].key == k);
                            }
                            assert(j == v as int);
                            assert forall|j2: int| 0 <= j2 < before.len() && before[j2].key == k implies j2 == v as int by {}
                        }
                    }
                } else {
                    self.entries.push(entry);
                    proof {
                        let n = before.len() as int;
                        assert(self.entries@[n].key == key);
                        assert forall|k: CacheKey| k != key && #[trigger] self.has_key(k) implies self.entry_for(k) == old(self).entry_for(k) by {
                            let j = choose|j: int| 0 <= j < self.entries@.len() && self.entries@[j].key == k;
                            assert(before[j].key == k);
                        }
                        assert forall|k: CacheKey| k != key && old(self).has_key(k) implies #[trigger] self.has_key(k) by {
                            let j = choose|j: int| 0 <= j < before.len() && before[j].key == k;
                            assert(self.entries@[j].key == k);
                        }
                    }
                }
            },
        }
    }
}

/// Storing a response and then looking up the same key gives back exactly
/// that response until its time to live runs out, and a miss from then on.
pub proof fn lemma_store_then_lookup(
    c: Cache,
    key: CacheKey,
    response: Seq<u8>,
    stored_ms: u64,
    ttl_ms: u64,
    now_ms: u64,
)
    requires
        c.wf(),
        c.entry_for(key) == Some((key, response, stored_ms, ttl_ms)),
    ensures
        now_ms < stored_ms + ttl_ms ==> c.lookup_result(key, now_ms) == Some(response),
        now_ms >= stored_ms + ttl_ms ==> c.lookup_result(key, now_ms) is None,
{
}

} // verus!
