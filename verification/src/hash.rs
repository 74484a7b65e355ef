//! Pluggable hashing for merkleizing committed state.
//!
//! The engine folds the committed key-value set into a single root digest
//! through the [`StorageHasher`] interface. A hasher's two operations are
//! pure functions of their byte inputs, so independent nodes holding the
//! same committed state derive the same root. Swapping hashers changes the
//! root digest format, never the engine's logic.

use vstd::prelude::*;

use crate::codec::u64_le_bytes;

verus! {

/// The hash interface the engine merkleizes with: a fixed-output-size
/// digest of a byte string, and a combiner folding two digests into one.
pub trait StorageHasher: Sized {
    /// The digest of a byte string.
    spec fn spec_hash(input: Seq<u8>) -> Seq<u8>;

    /// The digest folding a left and a right digest together.
    spec fn spec_combine(left: Seq<u8>, right: Seq<u8>) -> Seq<u8>;

    /// Digest a byte string: a pure function of the bytes alone.
    fn hash(&self, input: &[u8]) -> (r: Vec<u8>)
        ensures
            r@ == Self::spec_hash(input@),
    ;

    /// Fold two digests into one: a pure function of the two alone.
    fn combine(&self, left: &[u8], right: &[u8]) -> (r: Vec<u8>)
        ensures
            r@ == Self::spec_combine(left@, right@),
    ;
}

/// The 64-bit FNV-1a accumulator folded over a byte string.
pub open spec fn fnv64(s: Seq<u8>) -> u64
    decreases s.len(),
{
    if s.len() == 0 {
        0xcbf2_9ce4_8422_2325u64
    } else {
        vstd::wrapping::u64_specs::wrapping_mul(
            fnv64(s.drop_last()) ^ (s.last() as u64),
            0x0000_0100_0000_01b3u64,
        )
    }
}

/// A non-cryptographic stand-in hasher: the 64-bit FNV-1a accumulator,
/// emitted as an eight-byte little-endian digest. It exercises the whole
/// merkleization path deterministically; a production node plugs in a
/// collision-resistant hasher through the same interface.
pub struct Fnv64Hasher;

impl Fnv64Hasher {
    /// A hasher instance; the hasher carries no state.
    pub fn new() -> Fnv64Hasher {
        Fnv64Hasher
    }
}

/// The eight little-endian bytes of an integer, as a vector.
pub fn u64_to_le_vec(x: u64) -> (r: Vec<u8>)
    ensures
        r@ == u64_le_bytes(x),
{
    let mut r: Vec<u8> = Vec::new();
    proof {
        assert((x & 0xff) < 256 && ((x >> 8) & 0xff) < 256 && ((x >> 16) & 0xff) < 256 && ((x
            >> 24) & 0xff) < 256 && ((x >> 32) & 0xff) < 256 && ((x >> 40) & 0xff) < 256 && ((x
            >> 48) & 0xff) < 256 && ((x >> 56) & 0xff) < 256) by (bit_vector);
    }
    r.push((x & 0xff) as u8);
    r.push(((x >> 8) & 0xff) as u8);
    r.push(((x >> 16) & 0xff) as u8);
    r.push(((x >> 24) & 0xff) as u8);
    r.push(((x >> 32) & 0xff) as u8);
    r.push(((x >> 40) & 0xff) as u8);
    r.push(((x >> 48) & 0xff) as u8);
    r.push(((x >> 56) & 0xff) as u8);
    proof {
        assert(r@ =~= u64_le_bytes(x));
    }
    r
}

/// The FNV-1a accumulator of a byte slice.
fn fnv64_exec(input: &[u8]) -> (r: u64)
    ensures
        r == fnv64(input@),
{
    let n = input.len();
    let mut h: u64 = 0xcbf2_9ce4_8422_2325;
    let mut i: usize = 0;
    proof {
        assert(input@.take(0) =~= Seq::<u8>::empty());
    }
    while i < n
        invariant
            n == input@.len(),
            0 <= i <= n,
            h == fnv64(input@.take(i as int)),
        decreases n - i,
    {
        let b = input[i];
        h = (h ^ (b as u64)).wrapping_mul(0x0000_0100_0000_01b3);
        proof {
            assert(input@.take(i + 1).drop_last() =~= input@.take(i as int));
            assert(input@.take(i + 1).last() == input@[i as int]);
        }
        i += 1;
    }
    proof {
        assert(input@.take(n as int) =~= input@);
    }
    h
}

impl StorageHasher for Fnv64Hasher {
    open spec fn spec_hash(input: Seq<u8>) -> Seq<u8> {
        u64_le_bytes(fnv64(input))
    }

    open spec fn spec_combine(left: Seq<u8>, right: Seq<u8>) -> Seq<u8> {
        u64_le_bytes(fnv64(left + right))
    }

    fn hash(&self, input: &[u8]) -> (r: Vec<u8>) {
        let h = fnv64_exec(input);
        u64_to_le_vec(h)
    }

    fn combine(&self, left: &[u8], right: &[u8]) -> (r: Vec<u8>) {
        let mut joined: Vec<u8> = Vec::new();
        let nl = left.len();
        let mut i: usize = 0;
        while i < nl
            invariant
                nl == left@.len(),
                0 <= i <= nl,
                joined@ == left@.take(i as int),
            decreases nl - i,
        {
            joined.push(left[i]);
            proof {
                assert(left@.take(i + 1) =~= left@.take(i as int).push(left@[i as int]));
            }
            i += 1;
        }
        proof {
            assert(left@.take(nl as int) =~= left@);
        }
        let nr = right.len();
        let mut j: usize = 0;
        while j < nr
            invariant
                nr == right@.len(),
                0 <= j <= nr,
                joined@ == left@ + right@.take(j as int),
            decreases nr - j,
        {
            joined.push(right[j]);
            proof {
                assert(left@ + right@.take(j + 1) =~= (left@ + right@.take(j as int)).push(
                    right@[j as int],
                ));
            }
            j += 1;
        }
        proof {
            assert(left@ + right@.take(nr as int) =~= left@ + right@);
        }
        let h = fnv64_exec(joined.as_slice());
        u64_to_le_vec(h)
    }
}

} // verus!
