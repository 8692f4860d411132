//! A small chained hash map: a fixed array of buckets, each a vector of
//! key-value pairs, with keys placed by their 64-bit FNV-1a hash.  The
//! bucket array never resizes.
//!
//! The map is an associative-container utility unrelated to the allocator;
//! its abstract value is the finite `Map` of its live key-value pairs.

use vstd::prelude::*;
use crate::fnv::{fnv1a, FnvBuildHasher, FnvHasher, FNV_OFFSET_BASIS};

verus! {

/// How many chains the map has; fixed for its whole life.
pub const NUM_BUCKETS: usize = 16;

/// Keys a `HashMap` can use: they feed their byte image to the FNV hasher,
/// and their equality test agrees with equality.
pub trait HashKey: Sized {
    /// The bytes the key feeds to the hasher.
    spec fn key_bytes(&self) -> Seq<u8>;

    /// Feed the key's bytes to `state`.
    fn hash(&self, state: &mut FnvHasher)
        ensures
            final(state).hash == fnv1a(old(state).hash, self.key_bytes()),
    ;

    /// Equality test; the result is exactly whether the keys are equal.
    fn key_eq(&self, other: &Self) -> (r: bool)
        ensures
            r == (self == other),
    ;
}

impl HashKey for u64 {
    /// The key's eight bytes, least significant first.
    open spec fn key_bytes(&self) -> Seq<u8> {
        seq![
            (*self) as u8,
            ((*self) >> 8u64) as u8,
            ((*self) >> 16u64) as u8,
            ((*self) >> 24u64) as u8,
            ((*self) >> 32u64) as u8,
            ((*self) >> 40u64) as u8,
            ((*self) >> 48u64) as u8,
            ((*self) >> 56u64) as u8,
        ]
    }

    fn hash(&self, state: &mut FnvHasher) {
        let x = *self;
        let mut v: Vec<u8> = Vec::new();
        v.push(x as u8);
        v.push((x >> 8u64) as u8);
        v.push((x >> 16u64) as u8);
        v.push((x >> 24u64) as u8);
        v.push((x >> 32u64) as u8);
        v.push((x >> 40u64) as u8);
        v.push((x >> 48u64) as u8);
        v.push((x >> 56u64) as u8);
        proof {
            assert(v@ =~= self.key_bytes());
        }
        state.write(v.as_slice());
    }

    fn key_eq(&self, other: &Self) -> (r: bool) {
        *self == *other
    }
}

/// The 64-bit FNV-1a hash of a key.
pub open spec fn key_hash<K: HashKey>(k: K) -> u64 {
    fnv1a(FNV_OFFSET_BASIS, k.key_bytes())
}

/// The chain a key belongs to.
pub open spec fn slot_of<K: HashKey>(k: K) -> int {
    (key_hash(k) as int) % (NUM_BUCKETS as int)
}

/// Some entry of the bucket holds `k`.
pub open spec fn bucket_has<K, V>(b: Seq<(K, V)>, k: K) -> bool {
    exists|j: int| 0 <= j < b.len() && b[j].0 == k
}

/// The position of `k`'s entry in the bucket.
pub open spec fn bucket_pos_of<K, V>(b: Seq<(K, V)>, k: K) -> int {
    choose|j: int| 0 <= j < b.len() && b[j].0 == k
}

/// The value stored beside `k` in the bucket.
pub open spec fn bucket_val<K, V>(b: Seq<(K, V)>, k: K) -> V {
    b[bucket_pos_of(b, k)].1
}

/// No key occurs twice in the bucket.
pub open spec fn bucket_distinct<K, V>(b: Seq<(K, V)>) -> bool {
    forall|j1: int, j2: int|
        0 <= j1 < j2 < b.len() ==> (#[trigger] b[j1]).0 != (#[trigger] b[j2]).0
}

/// Every entry of bucket `i` hashes to chain `i`, and no key repeats.
pub open spec fn bucket_ok<K: HashKey, V>(b: Seq<(K, V)>, i: int) -> bool {
    &&& forall|j: int| 0 <= j < b.len() ==> slot_of((#[trigger] b[j]).0) == i
    &&& bucket_distinct(b)
}

/// In a bucket without repeated keys, an entry holding `k` is the one and
/// only witness: the stored value beside `k` is that entry's.
pub proof fn lemma_bucket_val_at<K, V>(b: Seq<(K, V)>, k: K, j: int)
    requires
        bucket_distinct(b),
        0 <= j < b.len(),
        b[j].0 == k,
    ensures
        bucket_has(b, k),
        bucket_pos_of(b, k) == j,
        bucket_val(b, k) == b[j].1,
{
    assert(bucket_has(b, k));
    let j2 = bucket_pos_of(b, k);
    assert(0 <= j2 < b.len() && b[j2].0 == k);
    if j2 < j {
        assert(b[j2].0 != b[j].0);
    } else if j < j2 {
        assert(b[j].0 != b[j2].0);
    }
}

/// A chained hash map from `K` to `V` with a fixed number of buckets.
pub struct HashMap<K, V> {
    buckets: Vec<Vec<(K, V)>>,
    build_hasher: FnvBuildHasher,
    len: usize,
}

impl<Key: HashKey, Value> View for HashMap<Key, Value> {
    type V = Map<Key, Value>;

    /// The abstract value: the map of all live key-value pairs, each key
    /// looked up in the chain its hash selects.
    closed spec fn view(&self) -> Map<Key, Value> {
        Map::new(
            |k: Key| bucket_has(self.buckets@[slot_of(k)]@, k),
            |k: Key| bucket_val(self.buckets@[slot_of(k)]@, k),
        )
    }
}

impl<K: HashKey, V> HashMap<K, V> {
    /// Well-formedness: exactly `NUM_BUCKETS` chains, every entry in the
    /// chain its key hashes to, no key twice, and the stored length is the
    /// abstract map's (finite) cardinality.
    pub closed spec fn wf(self) -> bool {
        &&& self.buckets@.len() == NUM_BUCKETS
        &&& forall|i: int|
            0 <= i < self.buckets@.len() ==> bucket_ok(#[trigger] self.buckets@[i]@, i)
        &&& self@.dom().finite()
        &&& self.len == self@.dom().len()
    }

    /// The chain index of any key is in range.
    proof fn lemma_slot_in_range(k: K)
        ensures
            0 <= slot_of(k) < NUM_BUCKETS as int,
    {
        vstd::arithmetic::div_mod::lemma_mod_division_less_than_divisor(
            key_hash(k) as int,
            NUM_BUCKETS as int,
        );
    }

    /// A key found in its chain is in the abstract map, with that entry's
    /// value.
    proof fn lemma_found(self, k: K, j: int)
        requires
            self.wf(),
            0 <= j < self.buckets@[slot_of(k)]@.len(),
            self.buckets@[slot_of(k)]@[j].0 == k,
        ensures
            self@.contains_key(k),
            self@[k] == self.buckets@[slot_of(k)]@[j].1,
    {
        Self::lemma_slot_in_range(k);
        lemma_bucket_val_at(self.buckets@[slot_of(k)]@, k, j);
    }

    /// A key in no entry of its chain is not in the abstract map.
    proof fn lemma_absent(self, k: K)
        requires
            self.wf(),
            forall|j: int|
                0 <= j < self.buckets@[slot_of(k)]@.len()
                    ==> (#[trigger] self.buckets@[slot_of(k)]@[j]).0 != k,
        ensures
            !self@.contains_key(k),
    {
    }

    /// An empty map: `NUM_BUCKETS` empty chains.
    pub fn new() -> (r: Self)
        ensures
            r.wf(),
            r@ == Map::<K, V>::empty(),
    {
        let mut buckets: Vec<Vec<(K, V)>> = Vec::new();
        let mut i: usize = 0;
        while i < NUM_BUCKETS
            invariant
                i <= NUM_BUCKETS,
                buckets@.len() == i,
                forall|t: int| 0 <= t < i ==> (#[trigger] buckets@[t])@.len() == 0,
            decreases NUM_BUCKETS - i,
        {
            buckets.push(Vec::new());
            i = i + 1;
        }
        let r = Self { buckets, build_hasher: FnvBuildHasher, len: 0 };
        proof {
            assert forall|k: K| !r@.contains_key(k) by {
                Self::lemma_slot_in_range(k);
            }
            assert(r@ =~= Map::<K, V>::empty());
        }
        r
    }

    /// The number of live key-value pairs.
    pub fn len(&self) -> (r: usize)
        requires
            self.wf(),
        ensures
            r == self@.dom().len(),
    {
        self.len
    }

    /// Whether the map holds no pair at all.
    pub fn is_empty(&self) -> (r: bool)
        requires
            self.wf(),
        ensures
            r == (self@.dom().len() == 0),
    {
        self.len == 0
    }

    /// Look `key` up: the value stored beside it, if the map contains it.
    pub fn get(&self, key: &K) -> (r: Option<&V>)
        requires
            self.wf(),
        ensures
            match r {
                Some(v) => self@.contains_key(*key) && *v == self@[*key],
                None => !self@.contains_key(*key),
            },
    {
        let mut hasher = self.build_hasher.build_hasher();
        key.hash(&mut hasher);
        let h = hasher.finish();
        let idx = (h % (NUM_BUCKETS as u64)) as usize;
        proof {
            assert(idx as int == slot_of(*key));
        }
        let bucket = &self.buckets[idx];
        let n = bucket.len();
        let mut j: usize = 0;
        while j < n
            invariant
                self.wf(),
                idx as int == slot_of(*key),
                idx < self.buckets@.len(),
                bucket@ == self.buckets@[idx as int]@,
                n == bucket@.len(),
                j <= n,
                forall|m: int| 0 <= m < j ==> (#[trigger] bucket@[m]).0 != *key,
            decreases n - j,
        {
            if bucket[j].0.key_eq(key) {
                proof {
                    self.lemma_found(*key, j as int);
                }
                return Some(&bucket[j].1);
            }
            j = j + 1;
        }
        proof {
            self.lemma_absent(*key);
        }
        None
    }

    /// All live key-value pairs, borrowed.  Every returned pair is in the
    /// abstract map, every key of the abstract map occurs, and no key
    /// occurs twice.
    #[verifier::rlimit(50)]
    pub fn iter(&self) -> (r: Vec<(&K, &V)>)
        requires
            self.wf(),
        ensures
            forall|m: int|
                0 <= m < r@.len() ==> self@.contains_key(*(#[trigger] r@[m]).0)
                    && *r@[m].1 == self@[*r@[m].0],
            forall|k: K|
                self@.contains_key(k)
                    ==> exists|m: int| 0 <= m < r@.len() && *(#[trigger] r@[m]).0 == k,
            forall|m1: int, m2: int|
                0 <= m1 < m2 < r@.len() ==> *(#[trigger] r@[m1]).0 != *(#[trigger] r@[m2]).0,
    {
        let mut r: Vec<(&K, &V)> = Vec::new();
        let nb = self.buckets.len();
        let mut i: usize = 0;
        while i < nb
            invariant
                self.wf(),
                nb == self.buckets@.len(),
                i <= nb,
                forall|m: int|
                    0 <= m < r@.len() ==> self@.contains_key(*(#[trigger] r@[m]).0)
                        && *r@[m].1 == self@[*r@[m].0],
                forall|m: int| 0 <= m < r@.len() ==> slot_of(*(#[trigger] r@[m]).0) < i,
                forall|k: K|
                    self@.contains_key(k) && slot_of(k) < i
                        ==> exists|m: int| 0 <= m < r@.len() && *(#[trigger] r@[m]).0 == k,
                forall|m1: int, m2: int|
                    0 <= m1 < m2 < r@.len() ==> *(#[trigger] r@[m1]).0 != *(#[trigger] r@[m2]).0,
            decreases nb - i,
        {
            let bucket = &self.buckets[i];
            let n = bucket.len();
            let mut j: usize = 0;
            while j < n
                invariant
                    self.wf(),
                    nb == self.buckets@.len(),
                    i < nb,
                    bucket@ == self.buckets@[i as int]@,
                    n == bucket@.len(),
                    j <= n,
                    forall|m: int|
                        0 <= m < r@.len() ==> self@.contains_key(*(#[trigger] r@[m]).0)
                            && *r@[m].1 == self@[*r@[m].0],
                    forall|m: int|
                        0 <= m < r@.len() ==> slot_of(*(#[trigger] r@[m]).0) < i || (slot_of(
                            *r@[m].0,
                        ) == i && bucket_pos_of(bucket@, *r@[m].0) < j),
                    forall|k: K|
                        self@.contains_key(k) && (slot_of(k) < i || (slot_of(k) == i
                            && bucket_pos_of(bucket@, k) < j))
                            ==> exists|m: int| 0 <= m < r@.len() && *(#[trigger] r@[m]).0 == k,
                    forall|m1: int, m2: int|
                        0 <= m1 < m2 < r@.len()
                            ==> *(#[trigger] r@[m1]).0 != *(#[trigger] r@[m2]).0,
                decreases n - j,
            {
                let ghost r0 = r@;
                let ghost b = bucket@;
                let ghost kk = b[j as int].0;
                r.push((&bucket[j].0, &bucket[j].1));
                proof {
                    let last = r@.len() - 1;
                    assert(forall|m: int| 0 <= m < r0.len() ==> r@[m] == r0[m]);
                    assert(*r@[last].0 == kk && *r@[last].1 == b[j as int].1);
                    assert(slot_of(kk) == i as int);
                    self.lemma_found(kk, j as int);
                    lemma_bucket_val_at(b, kk, j as int);
                    assert forall|m1: int, m2: int|
                        0 <= m1 < m2 < r@.len() implies *(#[trigger] r@[m1]).0 != *(
                    #[trigger] r@[m2]).0 by {
                        if m2 == last && *r@[m1].0 == kk {
                            assert(bucket_pos_of(b, kk) == j);
                        }
                    }
                    assert forall|k: K|
                        self@.contains_key(k) && (slot_of(k) < i || (slot_of(k) == i
                            && bucket_pos_of(b, k) < j + 1)) implies exists|m: int|
                        0 <= m < r@.len() && *(#[trigger] r@[m]).0 == k by {
                        if slot_of(k) == i as int && bucket_pos_of(b, k) == j {
                            let p = bucket_pos_of(b, k);
                            assert(0 <= p < b.len() && b[p].0 == k);
                            assert(k == kk);
                            assert(*r@[last].0 == k);
                        }
                    }
                }
                j = j + 1;
            }
            proof {
                assert forall|k: K|
                    self@.contains_key(k) && slot_of(k) < i + 1 implies exists|m: int|
                    0 <= m < r@.len() && *(#[trigger] r@[m]).0 == k by {
                    if slot_of(k) == i as int {
                        let p = bucket_pos_of(bucket@, k);
                        assert(0 <= p < bucket@.len() && bucket@[p].0 == k);
                    }
                }
                assert forall|m: int|
                    0 <= m < r@.len() implies slot_of(*(#[trigger] r@[m]).0) < i + 1 by {}
            }
            i = i + 1;
        }
        proof {
            assert forall|k: K|
                self@.contains_key(k) implies exists|m: int|
                0 <= m < r@.len() && *(#[trigger] r@[m]).0 == k by {
                Self::lemma_slot_in_range(k);
            }
        }
        r
    }

    /// Look `key` up for mutation: a mutable borrow of the value stored
    /// beside it, if the map contains it.  Whatever the caller writes
    /// through the borrow replaces the stored value.
    pub fn get_mut(&mut self, key: &K) -> (r: Option<&mut V>)
        requires
            old(self).wf(),
        ensures
            match r {
                Option::Some(v) => {
                    &&& old(self)@.contains_key(*key)
                    &&& *v == old(self)@[*key]
                    &&& final(self).wf()
                    &&& final(self)@ == old(self)@.insert(*key, *final(v))
                },
                Option::None => {
                    &&& !old(self)@.contains_key(*key)
                    &&& *final(self) == *old(self)
                },
            },
    {
        let mut hasher = self.build_hasher.build_hasher();
        key.hash(&mut hasher);
        let h = hasher.finish();
        let idx = (h % (NUM_BUCKETS as u64)) as usize;
        proof {
            assert(idx as int == slot_of(*key));
        }
        let n = self.buckets[idx].len();
        let mut j: usize = 0;
        while j < n
            invariant
                *self == *old(self),
                self.wf(),
                idx as int == slot_of(*key),
                idx < self.buckets@.len(),
                n == self.buckets@[idx as int]@.len(),
                j <= n,
                forall|m: int| 0 <= m < j ==> (#[trigger] self.buckets@[idx as int]@[m]).0 != *key,
            decreases n - j,
        {
            if self.buckets[idx][j].0.key_eq(key) {
                proof {
                    old(self).lemma_found(*key, j as int);
                }
                let v = &mut self.buckets[idx][j].1;
                proof {
                    assert(after_borrow(*self).buckets@[idx as int]@ =~= old(self).buckets@[idx
                        as int]@.update(j as int, (*key, *final(v))));
                    Self::lemma_replace(*old(self), after_borrow(*self), *key, *final(v), j as int);
                }
                return Some(v);
            }
            j = j + 1;
        }
        proof {
            self.lemma_absent(*key);
        }
        None
    }

    /// Insert the pair, replacing (and returning) the value previously
    /// stored beside `key`, if any.
    pub fn insert(&mut self, key: K, value: V) -> (r: Option<V>)
        requires
            old(self).wf(),
            old(self)@.dom().len() < usize::MAX,
        ensures
            final(self).wf(),
            final(self)@ == old(self)@.insert(key, value),
            r == (if old(self)@.contains_key(key) {
                Option::Some(old(self)@[key])
            } else {
                Option::<V>::None
            }),
    {
        let mut hasher = self.build_hasher.build_hasher();
        key.hash(&mut hasher);
        let h = hasher.finish();
        let idx = (h % (NUM_BUCKETS as u64)) as usize;
        proof {
            assert(idx as int == slot_of(key));
        }
        let n = self.buckets[idx].len();
        let mut j: usize = 0;
        while j < n
            invariant
                *self == *old(self),
                self.wf(),
                idx as int == slot_of(key),
                idx < self.buckets@.len(),
                n == self.buckets@[idx as int]@.len(),
                j <= n,
                forall|m: int| 0 <= m < j ==> (#[trigger] self.buckets@[idx as int]@[m]).0 != key,
            decreases n - j,
        {
            if self.buckets[idx][j].0.key_eq(&key) {
                proof {
                    old(self).lemma_found(key, j as int);
                }
                self.buckets[idx].push((key, value));
                let old_pair = self.buckets[idx].swap_remove(j);
                proof {
                    assert(self.buckets@[idx as int]@ =~= old(self).buckets@[idx as int]@.update(
                        j as int,
                        (key, value),
                    ));
                    Self::lemma_replace(*old(self), *self, key, value, j as int);
                }
                return Some(old_pair.1);
            }
            j = j + 1;
        }
        proof {
            old(self).lemma_absent(key);
        }
        self.buckets[idx].push((key, value));
        self.len = self.len + 1;
        proof {
            Self::lemma_append(*old(self), *self, key, value);
        }
        None
    }

    /// Replacing the value beside a key already in its chain updates the
    /// abstract map at that key and keeps the map well-formed.
    proof fn lemma_replace(pre: Self, post: Self, key: K, value: V, j: int)
        requires
            pre.wf(),
            post.buckets@.len() == pre.buckets@.len(),
            0 <= j < pre.buckets@[slot_of(key)]@.len(),
            pre.buckets@[slot_of(key)]@[j].0 == key,
            post.buckets@[slot_of(key)]@ == pre.buckets@[slot_of(key)]@.update(j, (key, value)),
            forall|i: int|
                0 <= i < pre.buckets@.len() && i != slot_of(key)
                    ==> (#[trigger] post.buckets@[i]) == pre.buckets@[i],
            post.len == pre.len,
        ensures
            post.wf(),
            post@ == pre@.insert(key, value),
    {
        let s = slot_of(key);
        let b0 = pre.buckets@[s]@;
        let b1 = post.buckets@[s]@;
        Self::lemma_slot_in_range(key);
        assert(bucket_ok(b0, s));
        assert(b1.len() == b0.len());
        assert forall|m: int| 0 <= m < b1.len() implies (#[trigger] b1[m]).0 == b0[m].0 by {
            if m == j {
                assert(b1[m].0 == key);
            }
        }
        assert(bucket_ok(b1, s));
        pre.lemma_found(key, j);
        lemma_bucket_val_at(b1, key, j);
        assert forall|k: K| #[trigger] post@.contains_key(k) == pre@.insert(
            key,
            value,
        ).contains_key(k) && (post@.contains_key(k) ==> post@[k] == pre@.insert(key, value)[k]) by {
            if slot_of(k) != s {
                assert(k != key);
            } else if k == key {
                assert(post@.contains_key(k) && post@[k] == value);
            } else {
                if bucket_has(b0, k) {
                    let m = bucket_pos_of(b0, k);
                    assert(0 <= m < b0.len() && b0[m].0 == k);
                    assert(m != j);
                    assert(b1[m] == b0[m]);
                    lemma_bucket_val_at(b0, k, m);
                    lemma_bucket_val_at(b1, k, m);
                }
                if bucket_has(b1, k) {
                    let m = bucket_pos_of(b1, k);
                    assert(0 <= m < b1.len() && b1[m].0 == k);
                    assert(m != j);
                    assert(b1[m] == b0[m]);
                    lemma_bucket_val_at(b0, k, m);
                }
            }
        }
        assert(post@ =~= pre@.insert(key, value));
        assert(pre@.dom().insert(key) =~= pre@.dom());
        assert(post@.dom() =~= pre@.dom().insert(key));
    }

    /// Appending a pair whose key its chain does not hold adds the pair to
    /// the abstract map and keeps the map well-formed.
    proof fn lemma_append(pre: Self, post: Self, key: K, value: V)
        requires
            pre.wf(),
            pre@.dom().len() < usize::MAX,
            post.buckets@.len() == pre.buckets@.len(),
            post.buckets@[slot_of(key)]@ == pre.buckets@[slot_of(key)]@.push((key, value)),
            forall|m: int|
                0 <= m < pre.buckets@[slot_of(key)]@.len()
                    ==> (#[trigger] pre.buckets@[slot_of(key)]@[m]).0 != key,
            forall|i: int|
                0 <= i < pre.buckets@.len() && i != slot_of(key)
                    ==> (#[trigger] post.buckets@[i]) == pre.buckets@[i],
            post.len == pre.len + 1,
        ensures
            post.wf(),
            post@ == pre@.insert(key, value),
    {
        broadcast use vstd::set::axiom_set_insert_len, vstd::set::axiom_set_insert_finite;

        let s = slot_of(key);
        let b0 = pre.buckets@[s]@;
        let b1 = post.buckets@[s]@;
        let n0 = b0.len() as int;
        Self::lemma_slot_in_range(key);
        assert(bucket_ok(b0, s));
        assert(b1.len() == n0 + 1);
        assert(b1[n0] == (key, value));
        assert forall|m: int| 0 <= m < n0 implies (#[trigger] b1[m]) == b0[m] by {}
        assert(bucket_distinct(b1)) by {
            assert forall|j1: int, j2: int| 0 <= j1 < j2 < b1.len() implies (#[trigger] b1[j1]).0
                != (#[trigger] b1[j2]).0 by {
                if j2 == n0 {
                    assert(b1[j1] == b0[j1]);
                } else {
                    assert(b1[j1] == b0[j1] && b1[j2] == b0[j2]);
                }
            }
        }
        assert(bucket_ok(b1, s));
        pre.lemma_absent(key);
        lemma_bucket_val_at(b1, key, n0);
        assert forall|k: K| #[trigger] post@.contains_key(k) == pre@.insert(
            key,
            value,
        ).contains_key(k) && (post@.contains_key(k) ==> post@[k] == pre@.insert(key, value)[k]) by {
            if slot_of(k) != s {
                assert(k != key);
            } else if k == key {
                assert(post@.contains_key(k) && post@[k] == value);
            } else {
                if bucket_has(b0, k) {
                    let m = bucket_pos_of(b0, k);
                    assert(0 <= m < b0.len() && b0[m].0 == k);
                    assert(b1[m] == b0[m]);
                    lemma_bucket_val_at(b0, k, m);
                    lemma_bucket_val_at(b1, k, m);
                }
                if bucket_has(b1, k) {
                    let m = bucket_pos_of(b1, k);
                    assert(0 <= m < b1.len() && b1[m].0 == k);
                    assert(m != n0);
                    assert(b1[m] == b0[m]);
                    lemma_bucket_val_at(b0, k, m);
                }
            }
        }
        assert(post@ =~= pre@.insert(key, value));
        assert(post@.dom() =~= pre@.dom().insert(key));
    }
}


/// The default map is the empty map.
impl<K: HashKey, V> Default for HashMap<K, V> {
    fn default() -> (r: Self)
        ensures
            r.wf(),
            r@ == Map::<K, V>::empty(),
    {
        Self::new()
    }
}

} // verus!
