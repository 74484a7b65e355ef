//! The governance parameter module: the canonical storage consumer.
//!
//! Governance owns the `gov` namespace. Its tunable parameters are a fixed
//! record; at genesis `init_storage` stages each field, plus a zeroed
//! proposal counter, under its well-known key through the engine's typed
//! writes. The well-known keys are pure, parameterless builders, so every
//! node addresses the same storage slots.

use vstd::prelude::*;

use crate::backend::StorageBackend;
use crate::codec::{read_u64_at, encode_u64, u64_le_bytes, DecodeError, Storable};
use crate::engine::Storage;
use crate::hash::StorageHasher;
use crate::key::{
    lemma_namespace_isolation, path_is_prefix, valid_path, valid_segment, Key,
};
use crate::token::{Amount, SCALE};

verus! {

/// A governance key path: the reserved `gov` namespace, then the leaf.
pub open spec fn gov_path(leaf: Seq<char>) -> Seq<Seq<char>> {
    seq!["gov"@, leaf]
}

/// The seven well-known governance leaves are well-formed segments, and
/// pairwise distinct.
proof fn gov_leaf_facts()
    ensures
        valid_segment("gov"@),
        valid_segment("min-proposal-fund"@),
        valid_segment("max-proposal-code-size"@),
        valid_segment("min-proposal-period"@),
        valid_segment("max-proposal-period"@),
        valid_segment("max-proposal-content"@),
        valid_segment("min-proposal-grace-epochs"@),
        valid_segment("counter"@),
        "min-proposal-fund"@ != "max-proposal-code-size"@,
        "min-proposal-fund"@ != "min-proposal-period"@,
        "min-proposal-fund"@ != "max-proposal-period"@,
        "min-proposal-fund"@ != "max-proposal-content"@,
        "min-proposal-fund"@ != "min-proposal-grace-epochs"@,
        "min-proposal-fund"@ != "counter"@,
        "max-proposal-code-size"@ != "min-proposal-period"@,
        "max-proposal-code-size"@ != "max-proposal-period"@,
        "max-proposal-code-size"@ != "max-proposal-content"@,
        "max-proposal-code-size"@ != "min-proposal-grace-epochs"@,
        "max-proposal-code-size"@ != "counter"@,
        "min-proposal-period"@ != "max-proposal-period"@,
        "min-proposal-period"@ != "max-proposal-content"@,
        "min-proposal-period"@ != "min-proposal-grace-epochs"@,
        "min-proposal-period"@ != "counter"@,
        "max-proposal-period"@ != "max-proposal-content"@,
        "max-proposal-period"@ != "min-proposal-grace-epochs"@,
        "max-proposal-period"@ != "counter"@,
        "max-proposal-content"@ != "min-proposal-grace-epochs"@,
        "max-proposal-content"@ != "counter"@,
        "min-proposal-grace-epochs"@ != "counter"@,
{
    reveal_strlit("gov");
    reveal_strlit("min-proposal-fund");
    reveal_strlit("max-proposal-code-size");
    reveal_strlit("min-proposal-period");
    reveal_strlit("max-proposal-period");
    reveal_strlit("max-proposal-content");
    reveal_strlit("min-proposal-grace-epochs");
    reveal_strlit("counter");
    assert("min-proposal-period"@[1] != "max-proposal-period"@[1]);
}

/// Build the two-segment key `gov/<leaf>`.
fn gov_key(leaf: &str) -> (r: Key)
    requires
        valid_segment(leaf@),
    ensures
        r@ == gov_path(leaf@),
        valid_path(r@),
{
    let mut segments: Vec<String> = Vec::new();
    segments.push(String::from_str("gov"));
    segments.push(leaf.to_owned());
    proof {
        gov_leaf_facts();
        assert(segments.deep_view() =~= gov_path(leaf@));
    }
    Key { segments }
}

/// The key holding the minimum proposal fund, as a token amount.
pub fn get_min_proposal_fund_key() -> (r: Key)
    ensures
        r@ == gov_path("min-proposal-fund"@),
        valid_path(r@),
        r@[0] == "gov"@,
{
    proof {
        gov_leaf_facts();
    }
    gov_key("min-proposal-fund")
}

/// The key holding the maximum proposal code size, in bytes.
pub fn get_max_proposal_code_size_key() -> (r: Key)
    ensures
        r@ == gov_path("max-proposal-code-size"@),
        valid_path(r@),
        r@[0] == "gov"@,
{
    proof {
        gov_leaf_facts();
    }
    gov_key("max-proposal-code-size")
}

/// The key holding the minimum proposal voting period, in epochs.
pub fn get_min_proposal_period_key() -> (r: Key)
    ensures
        r@ == gov_path("min-proposal-period"@),
        valid_path(r@),
        r@[0] == "gov"@,
{
    proof {
        gov_leaf_facts();
    }
    gov_key("min-proposal-period")
}

/// The key holding the maximum proposal voting period, in epochs.
pub fn get_max_proposal_period_key() -> (r: Key)
    ensures
        r@ == gov_path("max-proposal-period"@),
        valid_path(r@),
        r@[0] == "gov"@,
{
    proof {
        gov_leaf_facts();
    }
    gov_key("max-proposal-period")
}

/// The key holding the maximum proposal content size, in characters.
pub fn get_max_proposal_content_key() -> (r: Key)
    ensures
        r@ == gov_path("max-proposal-content"@),
        valid_path(r@),
        r@[0] == "gov"@,
{
    proof {
        gov_leaf_facts();
    }
    gov_key("max-proposal-content")
}

/// The key holding the minimum grace-epoch gap.
pub fn get_min_proposal_grace_epoch_key() -> (r: Key)
    ensures
        r@ == gov_path("min-proposal-grace-epochs"@),
        valid_path(r@),
        r@[0] == "gov"@,
{
    proof {
        gov_leaf_facts();
    }
    gov_key("min-proposal-grace-epochs")
}

/// The key holding the proposal counter.
pub fn get_counter_key() -> (r: Key)
    ensures
        r@ == gov_path("counter"@),
        valid_path(r@),
        r@[0] == "gov"@,
{
    proof {
        gov_leaf_facts();
    }
    gov_key("counter")
}

/// Namespace isolation for governance: a governance key is never
/// prefix-related, in either direction, to a key of a module whose
/// reserved first segment differs from `gov`.
pub proof fn lemma_gov_namespace_isolation(leaf: Seq<char>, other: Seq<Seq<char>>)
    requires
        other.len() > 0,
        other[0] != "gov"@,
    ensures
        !path_is_prefix(gov_path(leaf), other),
        !path_is_prefix(other, gov_path(leaf)),
{
    lemma_namespace_isolation(gov_path(leaf), other);
}

/// The governance parameter record.
#[derive(Clone, Debug, PartialEq, Eq, PartialOrd, Ord, Hash, Structural)]
pub struct GovParams {
    /// Minimum amount of locked funds, in whole token units.
    pub min_proposal_fund: u64,
    /// Maximum length for proposal code, in bytes.
    pub max_proposal_code_size: u64,
    /// Minimum proposal voting period, in epochs.
    pub min_proposal_period: u64,
    /// Maximum proposal voting period, in epochs.
    pub max_proposal_period: u64,
    /// Maximum number of characters for proposal content.
    pub max_proposal_content_size: u64,
    /// Minimum epochs between voting end and grace epochs.
    pub min_proposal_grace_epochs: u64,
}

impl GovParams {
    /// The record's invariant: the minimum voting period never exceeds
    /// the maximum. Sizes and periods are counts and cannot be negative.
    pub open spec fn wf(self) -> bool {
        self.min_proposal_period <= self.max_proposal_period
    }
}

impl Default for GovParams {
    /// The compiled-in default parameters; they satisfy the record's
    /// invariant.
    fn default() -> (r: Self)
        ensures
            r.wf(),
            r == (GovParams {
                min_proposal_fund: 500,
                max_proposal_code_size: 300_000,
                min_proposal_period: 3,
                max_proposal_period: 27,
                max_proposal_content_size: 10_000,
                min_proposal_grace_epochs: 6,
            }),
    {
        GovParams {
            min_proposal_fund: 500,
            max_proposal_code_size: 300_000,
            min_proposal_period: 3,
            max_proposal_period: 27,
            max_proposal_content_size: 10_000,
            min_proposal_grace_epochs: 6,
        }
    }
}

impl Storable for GovParams {
    open spec fn encoding(self) -> Seq<u8> {
        u64_le_bytes(self.min_proposal_fund) + u64_le_bytes(self.max_proposal_code_size)
            + u64_le_bytes(self.min_proposal_period) + u64_le_bytes(self.max_proposal_period)
            + u64_le_bytes(self.max_proposal_content_size) + u64_le_bytes(
            self.min_proposal_grace_epochs,
        )
    }

    fn encode(&self) -> (r: Vec<u8>) {
        let mut r = encode_u64(self.min_proposal_fund);
        let mut b2 = encode_u64(self.max_proposal_code_size);
        r.append(&mut b2);
        let mut b3 = encode_u64(self.min_proposal_period);
        r.append(&mut b3);
        let mut b4 = encode_u64(self.max_proposal_period);
        r.append(&mut b4);
        let mut b5 = encode_u64(self.max_proposal_content_size);
        r.append(&mut b5);
        let mut b6 = encode_u64(self.min_proposal_grace_epochs);
        r.append(&mut b6);
        r
    }

    fn decode(bytes: &[u8]) -> (r: Result<Self, DecodeError>) {
        let n = bytes.len();
        if n < 48 {
            proof {
                lemma_gov_params_encoding_len(bytes@);
            }
            return Err(DecodeError::Truncated);
        }
        if n > 48 {
            proof {
                lemma_gov_params_encoding_len(bytes@);
            }
            return Err(DecodeError::Malformed);
        }
        let v = GovParams {
            min_proposal_fund: read_u64_at(bytes, 0),
            max_proposal_code_size: read_u64_at(bytes, 8),
            min_proposal_period: read_u64_at(bytes, 16),
            max_proposal_period: read_u64_at(bytes, 24),
            max_proposal_content_size: read_u64_at(bytes, 32),
            min_proposal_grace_epochs: read_u64_at(bytes, 40),
        };
        proof {
            assert(v.encoding() =~= bytes@.subrange(0, 8) + bytes@.subrange(8, 16)
                + bytes@.subrange(16, 24) + bytes@.subrange(24, 32) + bytes@.subrange(32, 40)
                + bytes@.subrange(40, 48));
            assert(v.encoding() =~= bytes@);
        }
        Ok(v)
    }

    proof fn lemma_encoding_injective(v1: Self, v2: Self) {
        if v1.encoding() == v2.encoding() {
            lemma_gov_params_fields(v1);
            lemma_gov_params_fields(v2);
            crate::codec::lemma_u64_le_round_trip(v1.min_proposal_fund);
            crate::codec::lemma_u64_le_round_trip(v2.min_proposal_fund);
            crate::codec::lemma_u64_le_round_trip(v1.max_proposal_code_size);
            crate::codec::lemma_u64_le_round_trip(v2.max_proposal_code_size);
            crate::codec::lemma_u64_le_round_trip(v1.min_proposal_period);
            crate::codec::lemma_u64_le_round_trip(v2.min_proposal_period);
            crate::codec::lemma_u64_le_round_trip(v1.max_proposal_period);
            crate::codec::lemma_u64_le_round_trip(v2.max_proposal_period);
            crate::codec::lemma_u64_le_round_trip(v1.max_proposal_content_size);
            crate::codec::lemma_u64_le_round_trip(v2.max_proposal_content_size);
            crate::codec::lemma_u64_le_round_trip(v1.min_proposal_grace_epochs);
            crate::codec::lemma_u64_le_round_trip(v2.min_proposal_grace_epochs);
        }
    }
}

/// Every parameter record encodes to exactly 48 bytes, so no record
/// encodes to a byte string of another length.
proof fn lemma_gov_params_encoding_len(bytes: Seq<u8>)
    requires
        bytes.len() != 48,
    ensures
        forall|v: GovParams| #[trigger] v.encoding() != bytes,
{
    assert forall|v: GovParams| #[trigger] v.encoding() != bytes by {
        assert(v.encoding().len() == 48);
    }
}

/// The fields of a record are read back from its encoding's six
/// eight-byte slices.
proof fn lemma_gov_params_fields(v: GovParams)
    ensures
        v.encoding().subrange(0, 8) == u64_le_bytes(v.min_proposal_fund),
        v.encoding().subrange(8, 16) == u64_le_bytes(v.max_proposal_code_size),
        v.encoding().subrange(16, 24) == u64_le_bytes(v.min_proposal_period),
        v.encoding().subrange(24, 32) == u64_le_bytes(v.max_proposal_period),
        v.encoding().subrange(32, 40) == u64_le_bytes(v.max_proposal_content_size),
        v.encoding().subrange(40, 48) == u64_le_bytes(v.min_proposal_grace_epochs),
{
    assert(v.encoding().subrange(0, 8) =~= u64_le_bytes(v.min_proposal_fund));
    assert(v.encoding().subrange(8, 16) =~= u64_le_bytes(v.max_proposal_code_size));
    assert(v.encoding().subrange(16, 24) =~= u64_le_bytes(v.min_proposal_period));
    assert(v.encoding().subrange(24, 32) =~= u64_le_bytes(v.max_proposal_period));
    assert(v.encoding().subrange(32, 40) =~= u64_le_bytes(v.max_proposal_content_size));
    assert(v.encoding().subrange(40, 48) =~= u64_le_bytes(v.min_proposal_grace_epochs));
}

impl GovParams {
    /// Initialize governance state: stage the six parameters, plus the
    /// proposal counter at zero, each under its well-known key, through
    /// the engine's typed writes. Meant to run once, at genesis; the
    /// writes take effect at the next commit. Re-running it merely stages
    /// the same keys again.
    pub fn init_storage<D, H>(&self, storage: &mut Storage<D, H>) where
        D: StorageBackend,
        H: StorageHasher,

        requires
            self.min_proposal_fund <= u64::MAX / SCALE,
        ensures
            final (storage).committed() == old(storage).committed(),
            final (storage).height() == old(storage).height(),
            final (storage).root_view() == old(storage).root_view(),
            old(storage).wf() ==> final (storage).wf(),
            final (storage).effective(gov_path("min-proposal-fund"@)) == Some(
                u64_le_bytes((self.min_proposal_fund * SCALE) as u64),
            ),
            final (storage).effective(gov_path("max-proposal-code-size"@)) == Some(
                u64_le_bytes(self.max_proposal_code_size),
            ),
            final (storage).effective(gov_path("min-proposal-period"@)) == Some(
                u64_le_bytes(self.min_proposal_period),
            ),
            final (storage).effective(gov_path("max-proposal-period"@)) == Some(
                u64_le_bytes(self.max_proposal_period),
            ),
            final (storage).effective(gov_path("max-proposal-content"@)) == Some(
                u64_le_bytes(self.max_proposal_content_size),
            ),
            final (storage).effective(gov_path("min-proposal-grace-epochs"@)) == Some(
                u64_le_bytes(self.min_proposal_grace_epochs),
            ),
            final (storage).effective(gov_path("counter"@)) == Some(u64_le_bytes(0)),
    {
        proof {
            gov_leaf_facts();
        }
        let amount = Amount::whole(self.min_proposal_fund);
        let k1 = get_min_proposal_fund_key();
        storage.write(&k1, &amount);
        let k2 = get_max_proposal_code_size_key();
        storage.write(&k2, &self.max_proposal_code_size);
        let k3 = get_min_proposal_period_key();
        storage.write(&k3, &self.min_proposal_period);
        let k4 = get_max_proposal_period_key();
        storage.write(&k4, &self.max_proposal_period);
        let k5 = get_max_proposal_content_key();
        storage.write(&k5, &self.max_proposal_content_size);
        let k6 = get_min_proposal_grace_epoch_key();
        storage.write(&k6, &self.min_proposal_grace_epochs);
        let counter: u64 = 0;
        let k7 = get_counter_key();
        storage.write(&k7, &counter);
    }
}

} // verus!
