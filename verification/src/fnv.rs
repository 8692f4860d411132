//! The 64-bit FNV-1a hash, written as an incremental hasher so the map can
//! feed a key's bytes to it piecewise.

use vstd::prelude::*;

verus! {

/// The FNV-1a starting state.
pub const FNV_OFFSET_BASIS: u64 = 0xcbf29ce484222325;

/// The FNV-1a multiplier.
pub const FNV_PRIME: u64 = 0x100000001b3;

/// One FNV-1a step: fold the byte in by XOR, then multiply by the prime,
/// wrapping on overflow.
pub open spec fn fnv1a_step(h: u64, b: u8) -> u64 {
    (h ^ (b as u64)).wrapping_mul(FNV_PRIME)
}

/// FNV-1a over a whole byte sequence, starting from state `h`.
pub open spec fn fnv1a(h: u64, bytes: Seq<u8>) -> u64
    decreases bytes.len(),
{
    if bytes.len() == 0 {
        h
    } else {
        fnv1a(fnv1a_step(h, bytes[0]), bytes.skip(1))
    }
}

/// Feeding one more byte hashes the byte into the state reached so far.
pub proof fn lemma_fnv1a_push(h: u64, bytes: Seq<u8>, b: u8)
    ensures
        fnv1a(h, bytes.push(b)) == fnv1a_step(fnv1a(h, bytes), b),
    decreases bytes.len(),
{
    if bytes.len() == 0 {
        assert(bytes.push(b)[0] == b);
        assert(bytes.push(b).skip(1) =~= Seq::<u8>::empty());
        assert(fnv1a(h, bytes.push(b)) == fnv1a(fnv1a_step(h, b), Seq::<u8>::empty()));
        assert(bytes =~= Seq::<u8>::empty());
    } else {
        assert(bytes.push(b)[0] == bytes[0]);
        assert(bytes.push(b).skip(1) =~= bytes.skip(1).push(b));
        assert(fnv1a(h, bytes.push(b)) == fnv1a(fnv1a_step(h, bytes[0]), bytes.skip(1).push(b)));
        lemma_fnv1a_push(fnv1a_step(h, bytes[0]), bytes.skip(1), b);
        assert(fnv1a(h, bytes) == fnv1a(fnv1a_step(h, bytes[0]), bytes.skip(1)));
    }
}

/// An incremental FNV-1a hasher.
pub struct FnvHasher {
    /// The state so far: the hash of everything written up to now.
    pub hash: u64,
}

impl FnvHasher {
    /// A hasher that has seen nothing: the offset basis.
    pub fn new() -> (r: Self)
        ensures
            r.hash == FNV_OFFSET_BASIS,
    {
        FnvHasher { hash: FNV_OFFSET_BASIS }
    }

    /// Fold `bytes` into the state, one byte at a time.
    pub fn write(&mut self, bytes: &[u8])
        ensures
            final(self).hash == fnv1a(old(self).hash, bytes@),
    {
        let ghost h0 = self.hash;
        let n = bytes.len();
        let mut i: usize = 0;
        while i < n
            invariant
                i <= n,
                n == bytes@.len(),
                self.hash == fnv1a(h0, bytes@.take(i as int)),
            decreases n - i,
        {
            let b = bytes[i];
            proof {
                assert(bytes@.take(i + 1) =~= bytes@.take(i as int).push(b));
                lemma_fnv1a_push(h0, bytes@.take(i as int), b);
            }
            self.hash = (self.hash ^ (b as u64)).wrapping_mul(FNV_PRIME);
            i = i + 1;
        }
        proof {
            assert(bytes@.take(n as int) =~= bytes@);
        }
    }

    /// The hash of everything written so far.
    pub fn finish(&self) -> (r: u64)
        ensures
            r == self.hash,
    {
        self.hash
    }
}

/// Builds `FnvHasher`s, one fresh hasher per key to be hashed.
pub struct FnvBuildHasher;

impl FnvBuildHasher {
    /// A fresh hasher at the offset basis.
    pub fn build_hasher(&self) -> (r: FnvHasher)
        ensures
            r.hash == FNV_OFFSET_BASIS,
    {
        FnvHasher::new()
    }
}

} // verus!
