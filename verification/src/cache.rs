//! The concurrent metadata cache, modelled as a sharded key→record map plus
//! a side list of known keys.
//!
//! The map is partitioned into buckets by `key mod shard-count`, the
//! mechanism that lets unrelated keys proceed in parallel once the structure
//! sits behind per-shard locks. The bucket map itself offers no iteration,
//! so a separately kept, append-only list of keys is the one supported way
//! to enumerate all known users; the list tolerates duplicate keys, but
//! every key present in the map appears in it.

use vstd::prelude::*;

use crate::meta::ClientMeta;

verus! {

/// Default number of shards when none is configured.
pub const DEFAULT_SHARDS: usize = 4;

/// A bucket holds an entry for `k`.
pub open spec fn bucket_has(b: Seq<(u64, ClientMeta)>, k: u64) -> bool {
    exists|i: int| 0 <= i < b.len() && (#[trigger] b[i]).0 == k
}

/// The index of `k`'s entry in a bucket.
pub open spec fn bucket_idx(b: Seq<(u64, ClientMeta)>, k: u64) -> int {
    choose|i: int| 0 <= i < b.len() && (#[trigger] b[i]).0 == k
}

/// The record a bucket holds for `k`.
pub open spec fn bucket_get(b: Seq<(u64, ClientMeta)>, k: u64) -> ClientMeta {
    b[bucket_idx(b, k)].1
}


/// In a bucket without repeated keys, the entry found at `i` is the entry
/// the bucket holds for its key.
proof fn lemma_bucket_get_at(b: Seq<(u64, ClientMeta)>, k: u64, i: int)
    requires
        0 <= i < b.len(),
        b[i].0 == k,
        forall|p: int, q: int|
            0 <= p < q < b.len() ==> (#[trigger] b[p]).0 != (#[trigger] b[q]).0,
    ensures
        bucket_has(b, k),
        bucket_idx(b, k) == i,
        bucket_get(b, k) == b[i].1,
{
    assert(bucket_has(b, k));
    let j = bucket_idx(b, k);
    assert(b[j].0 == k);
    if j < i {
        assert(b[j].0 != b[i].0);
    } else if j > i {
        assert(b[i].0 != b[j].0);
    }
}

/// Cache of bot client metadata: sharded buckets of records and the key
/// list used for bulk maintenance.
#[derive(Debug)]
pub struct Cache {
    shards: Vec<Vec<(u64, ClientMeta)>>,
    clients: Vec<u64>,
}

impl View for Cache {
    type V = Map<u64, ClientMeta>;

    /// The key→record map the cache represents.
    closed spec fn view(&self) -> Map<u64, ClientMeta> {
        Map::new(|k: u64| self.spec_contains(k), |k: u64| self.spec_get(k))
    }
}

impl Cache {
    /// The bucket responsible for `k`.
    pub closed spec fn spec_bucket(&self, k: u64) -> Seq<(u64, ClientMeta)> {
        self.shards@[k as int % self.shards@.len() as int]@
    }

    /// The cache holds a record for `k`.
    pub closed spec fn spec_contains(&self, k: u64) -> bool {
        self.shards@.len() >= 1 && bucket_has(self.spec_bucket(k), k)
    }

    /// The record held for `k`.
    pub closed spec fn spec_get(&self, k: u64) -> ClientMeta {
        bucket_get(self.spec_bucket(k), k)
    }

    /// The key list, in append order.
    pub closed spec fn clients_seq(&self) -> Seq<u64> {
        self.clients@
    }

    /// Structural invariant: at least one shard; every entry sits in the
    /// bucket its key hashes to; no bucket holds a key twice; every record is
    /// well-formed; and every mapped key appears in the key list.
    pub closed spec fn wf(&self) -> bool {
        &&& self.shards@.len() >= 1
        &&& forall|s: int, i: int|
            0 <= s < self.shards@.len() && 0 <= i < self.shards@[s]@.len()
                ==> (#[trigger] self.shards@[s]@[i]).0 as int % self.shards@.len() as int == s
        &&& forall|s: int, i: int, j: int|
            0 <= s < self.shards@.len() && 0 <= i < j < self.shards@[s]@.len()
                ==> (#[trigger] self.shards@[s]@[i]).0 != (#[trigger] self.shards@[s]@[j]).0
        &&& forall|s: int, i: int|
            0 <= s < self.shards@.len() && 0 <= i < self.shards@[s]@.len()
                ==> (#[trigger] self.shards@[s]@[i]).1.wf()
        &&& forall|k: u64| #[trigger] self.spec_contains(k) ==> self.clients@.contains(k)
    }

    /// Every record the cache holds is well-formed.
    pub open spec fn all_wf(&self) -> bool {
        forall|k: u64| #[trigger] self@.contains_key(k) ==> self@[k].wf()
    }

    /// Build an empty cache with `shards` buckets.
    pub fn new(shards: usize) -> (r: Cache)
        requires
            shards >= 1,
        ensures
            r.wf(),
            r@ == Map::<u64, ClientMeta>::empty(),
            r.clients_seq() == Seq::<u64>::empty(),
    {
        let mut buckets: Vec<Vec<(u64, ClientMeta)>> = Vec::new();
        let mut i: usize = 0;
        while i < shards
            invariant
                0 <= i <= shards,
                buckets@.len() == i,
                forall|s: int| 0 <= s < i ==> (#[trigger] buckets@[s])@.len() == 0,
            decreases shards - i,
        {
            buckets.push(Vec::new());
            i = i + 1;
        }
        let r = Cache { shards: buckets, clients: Vec::new() };
        proof {
            assert(forall|k: u64| !r.spec_contains(k));
            assert(r@ =~= Map::<u64, ClientMeta>::empty());
        }
        r
    }

    /// Build an empty cache with the default shard count.
    pub fn with_default_shards() -> (r: Cache)
        ensures
            r.wf(),
            r@ == Map::<u64, ClientMeta>::empty(),
            r.clients_seq() == Seq::<u64>::empty(),
    {
        Cache::new(DEFAULT_SHARDS)
    }

    /// Shared read of the record for `k`, when one is held.
    pub fn get(&self, k: u64) -> (r: Option<&ClientMeta>)
        requires
            self.wf(),
        ensures
            r is Some <==> self@.contains_key(k),
            r matches Some(m) ==> *m == self@[k] && m.wf(),
    {
        let count = self.shards.len();
        let idx = (k % (count as u64)) as usize;
        let n: usize = self.shards[idx].len();
        let mut i: usize = 0;
        proof {
            assert(idx as int == k as int % self.shards@.len() as int);
        }
        while i < n
            invariant
                0 <= i <= n,
                self.wf(),
                0 <= idx < self.shards@.len(),
                idx as int == k as int % self.shards@.len() as int,
                n == self.shards@[idx as int]@.len(),
                forall|j: int| 0 <= j < i ==> (#[trigger] self.spec_bucket(k)[j]).0 != k,
            decreases n - i,
        {
            if self.shards[idx][i].0 == k {
                proof {
                    let b = self.spec_bucket(k);
                    assert(b[i as int].0 == k);
                    assert(self.spec_contains(k));
                    let j = bucket_idx(b, k);
                    assert(b[j].0 == k);
                    assert(j == i as int);
                    assert(b[i as int].1.wf());
                }
                return Some(&self.shards[idx][i].1);
            }
            i = i + 1;
        }
        proof {
            assert(!bucket_has(self.spec_bucket(k), k));
        }
        None
    }

    /// Insert or replace the record for `k`. A key not seen before is also
    /// appended to the key list, atomically with the map update, so the map
    /// and the list stay in lock-step.
    pub fn insert(&mut self, k: u64, meta: ClientMeta)
        requires
            old(self).wf(),
            meta.wf(),
        ensures
            final(self).wf(),
            final(self)@ == old(self)@.insert(k, meta),
            old(self)@.contains_key(k) ==> final(self).clients_seq() == old(self).clients_seq(),
            !old(self)@.contains_key(k) ==> final(self).clients_seq() == old(self).clients_seq().push(
                k,
            ),
    {
        let count = self.shards.len();
        let idx = (k % (count as u64)) as usize;
        proof {
            assert(idx as int == k as int % self.shards@.len() as int);
        }
        let mut bucket: Vec<(u64, ClientMeta)> = Vec::new();
        self.shards.set_and_swap(idx, &mut bucket);
        let ghost b0 = bucket@;
        let n: usize = bucket.len();
        let mut i: usize = 0;
        let mut found = false;
        while i < n && !found
            invariant
                0 <= i <= n,
                n == bucket@.len(),
                bucket@ == b0,
                !found ==> forall|j: int| 0 <= j < i ==> (#[trigger] b0[j]).0 != k,
                found ==> i < n && b0[i as int].0 == k,
            decreases n - i + (if found { 0int } else { 1int }),
        {
            if bucket[i].0 == k {
                found = true;
            } else {
                i = i + 1;
            }
        }
        let ghost was_there = bucket_has(b0, k);
        if found {
            bucket.set(i, (k, meta));
            proof {
                assert(b0[i as int].0 == k);
                assert(was_there);
            }
        } else {
            bucket.push((k, meta));
            proof {
                assert(!was_there);
            }
            self.clients.push(k);
        }
        self.shards.set_and_swap(idx, &mut bucket);
        proof {
            let oldc = *old(self);
            let count = oldc.shards@.len() as int;
            let b0v = b0;
            let nb = self.shards@[idx as int]@;
            assert(self.shards@ =~= oldc.shards@.update(idx as int, self.shards@[idx as int]));
            assert(self.shards@.len() == count);
            assert(forall|s: int| 0 <= s < count && s != idx ==> self.shards@[s] == oldc.shards@[s]);
            assert(oldc.spec_bucket(k) == b0v);
            // shape of the new bucket
            if found {
                assert(nb =~= b0v.update(i as int, (k, meta)));
                assert(nb.len() == b0v.len());
                assert(was_there) by {
                    assert(b0v[i as int].0 == k);
                }
                assert(self.clients@ == oldc.clients@);
            } else {
                assert(nb =~= b0v.push((k, meta)));
                assert(!was_there);
                assert(self.clients@ == oldc.clients@.push(k));
            }
            assert(nb[i as int] == (k, meta));
            assert(forall|j: int| 0 <= j < b0v.len() && j != i ==> nb[j] == b0v[j]);
            assert(forall|j: int| 0 <= j < nb.len() && j != i ==> 0 <= j < b0v.len() && nb[j] == b0v[j]);
            // old keys stay listed, and the old list is a prefix of the new
            assert(forall|k2: u64| oldc.clients@.contains(k2) ==> self.clients@.contains(k2)) by {
                assert(forall|j: int|
                    0 <= j < oldc.clients@.len() ==> self.clients@[j] == oldc.clients@[j]);
            }
            // shard assignment, uniqueness, record well-formedness
            assert(forall|s: int, j: int|
                0 <= s < count && 0 <= j < self.shards@[s]@.len()
                    ==> (#[trigger] self.shards@[s]@[j]).0 as int % count == s
                        && self.shards@[s]@[j].1.wf()) by {
                assert(k as int % count == idx as int);
            }
            assert(forall|p: int, q: int|
                0 <= p < q < nb.len() ==> (#[trigger] nb[p]).0 != (#[trigger] nb[q]).0) by {
                assert(forall|p: int, q: int|
                    0 <= p < q < b0v.len() ==> (#[trigger] b0v[p]).0 != (#[trigger] b0v[q]).0);
                assert(forall|j: int| 0 <= j < nb.len() && j != i ==> (#[trigger] nb[j]).0 == b0v[j].0);
                if found {
                    assert(b0v[i as int].0 == k);
                } else {
                    assert(forall|j: int| 0 <= j < b0v.len() ==> (#[trigger] b0v[j]).0 != k);
                }
            }
            // containment and lookups for the new state
            lemma_bucket_get_at(nb, k, i as int);
            assert(self.spec_bucket(k) == nb);
            assert(self.spec_contains(k));
            assert(self.spec_get(k) == meta);
            assert forall|k2: u64| k2 != k implies self.spec_contains(k2) == oldc.spec_contains(k2)
                && (self.spec_contains(k2) ==> self.spec_get(k2) == oldc.spec_get(k2)) by {
                if k2 as int % count != idx as int {
                    assert(self.spec_bucket(k2) == oldc.spec_bucket(k2));
                } else {
                    assert(self.spec_bucket(k2) == nb);
                    assert(oldc.spec_bucket(k2) == b0v);
                    if oldc.spec_contains(k2) {
                        let j = choose|j: int| 0 <= j < b0v.len() && (#[trigger] b0v[j]).0 == k2;
                        assert(j != i || b0v[i as int].0 == k2);
                        if found {
                            assert(b0v[i as int].0 == k);
                        }
                        assert(j != i);
                        assert(nb[j].0 == k2);
                        lemma_bucket_get_at(nb, k2, j);
                        lemma_bucket_get_at(b0v, k2, j);
                        assert(self.spec_contains(k2));
                        assert(self.spec_get(k2) == oldc.spec_get(k2));
                    }
                    if self.spec_contains(k2) {
                        let j = choose|j: int| 0 <= j < nb.len() && (#[trigger] nb[j]).0 == k2;
                        assert(j != i);
                        assert(b0v[j].0 == k2);
                        assert(oldc.spec_contains(k2));
                    }
                }
            }
            // coherence of the key list
            assert forall|k2: u64| #[trigger] self.spec_contains(k2)
                implies self.clients@.contains(k2) by {
                if k2 == k {
                    if was_there {
                        assert(oldc.spec_contains(k));
                        assert(oldc.clients@.contains(k));
                    } else {
                        assert(self.clients@.last() == k);
                        assert(self.clients@.contains(k));
                    }
                } else {
                    assert(oldc.spec_contains(k2));
                    assert(oldc.clients@.contains(k2));
                }
            }
            assert(self.wf());
            // the map view is the old view with k remapped
            assert(self@ =~= oldc@.insert(k, meta));
        }
    }

    /// Append `k` to the key list, whether or not it is already there:
    /// callers registering a client tolerate duplicate list entries.
    pub fn push_client(&mut self, k: u64)
        requires
            old(self).wf(),
        ensures
            final(self).wf(),
            final(self)@ == old(self)@,
            final(self).clients_seq() == old(self).clients_seq().push(k),
    {
        self.clients.push(k);
        proof {
            let oldc = *old(self);
            assert(self.shards@ == oldc.shards@);
            assert(forall|k2: u64| #[trigger] self.spec_contains(k2) == oldc.spec_contains(k2));
            assert(forall|k2: u64| #[trigger] self.spec_contains(k2)
                ==> self.spec_get(k2) == oldc.spec_get(k2));
            assert(forall|k2: u64| oldc.clients@.contains(k2) ==> self.clients@.contains(k2)) by {
                assert(forall|j: int| 0 <= j < oldc.clients@.len()
                    ==> self.clients@[j] == oldc.clients@[j]);
            }
            assert(self@ =~= oldc@);
        }
    }

    /// The known keys, in append order, for bulk maintenance.
    pub fn client_ids(&self) -> (r: &Vec<u64>)
        ensures
            r@ == self.clients_seq(),
    {
        &self.clients
    }

    /// How many keys the list holds (duplicates counted).
    pub fn client_count(&self) -> (r: usize)
        ensures
            r == self.clients_seq().len(),
    {
        self.clients.len()
    }
}

} // verus!
