//! Token amounts.

use vstd::prelude::*;

use crate::codec::{
    decode_u64, encode_u64, lemma_u64_le_round_trip, u64_le_bytes, DecodeError, Storable,
};

verus! {

/// The number of fixed-point sub-units in one whole token unit. The same
/// factor on every node, so identical logical amounts encode identically.
pub const SCALE: u64 = 1_000_000;

/// A token amount: a fixed-point count of sub-units, `SCALE` of them to
/// the whole unit.
#[derive(Clone, Copy, Debug, PartialEq, Eq, Structural)]
pub struct Amount {
    /// The count of fixed-point sub-units.
    pub micro: u64,
}

impl Amount {
    /// The amount standing for `n` whole units.
    pub fn whole(n: u64) -> (r: Amount)
        requires
            n <= u64::MAX / SCALE,
        ensures
            r.micro == n * SCALE,
    {
        proof {
            assert(n * 1_000_000 <= u64::MAX) by (nonlinear_arith)
                requires
                    n <= u64::MAX / 1_000_000,
            ;
        }
        Amount { micro: n * SCALE }
    }

    /// The amount standing for `n` sub-units.
    pub fn micro(n: u64) -> (r: Amount)
        ensures
            r.micro == n,
    {
        Amount { micro: n }
    }
}

impl Storable for Amount {
    open spec fn encoding(self) -> Seq<u8> {
        u64_le_bytes(self.micro)
    }

    fn encode(&self) -> (r: Vec<u8>) {
        encode_u64(self.micro)
    }

    fn decode(bytes: &[u8]) -> (r: Result<Self, DecodeError>) {
        let r = match decode_u64(bytes) {
            Ok(x) => Ok(Amount { micro: x }),
            Err(e) => Err(e),
        };
        proof {
            if r is Err {
                assert forall|v: Amount| #[trigger] v.encoding() != bytes@ by {
                    assert(u64_le_bytes(v.micro).len() == 8);
                }
            }
        }
        r
    }

    proof fn lemma_encoding_injective(v1: Self, v2: Self) {
        lemma_u64_le_round_trip(v1.micro);
        lemma_u64_le_round_trip(v2.micro);
    }
}

} // verus!
