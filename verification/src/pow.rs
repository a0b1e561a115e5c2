//! The proof-of-work puzzle: a block's header hash, read as a 256-bit
//! big-endian unsigned integer, must lie below `1 << (256 -
//! TARGET_BITS)`. The nonce search iterates from zero; the validator
//! recomputes the hash with the stored nonce.

use vstd::prelude::*;
use vstd::arithmetic::power2::pow2;
use vstd::arithmetic::power2::lemma_pow2_adds;
use vstd::arithmetic::power2::lemma2_to64;
use vstd::arithmetic::mul::lemma_mul_inequality;
use vstd::arithmetic::mul::lemma_mul_is_distributive_add;
use vstd::arithmetic::mul::lemma_mul_is_associative;
use crate::block::header_bytes;
use crate::block::Block;
use crate::block::BlockV;
use crate::crypto::sha256;
use crate::crypto::sha256_of;
use crate::ChainError;

verus! {

/// The difficulty: how many leading bits of the hash must be zero.
pub const TARGET_BITS: u32 = 4;

/// The largest nonce tried before the search gives up.
pub const MAX_NONCE: i64 = 0x7fff_ffff_ffff_ffff;

/// A byte string read as a big-endian unsigned integer.
pub open spec fn be_bytes_nat(s: Seq<u8>) -> nat
    decreases s.len(),
{
    if s.len() == 0 {
        0
    } else {
        be_bytes_nat(s.drop_last()) * 256 + s.last() as nat
    }
}

/// The boundary a valid hash must lie below.
pub open spec fn pow_target() -> nat {
    pow2((256 - TARGET_BITS) as nat)
}

/// Whether a hash lies below the target.
pub open spec fn meets_target(hash: Seq<u8>) -> bool {
    be_bytes_nat(hash) < pow_target()
}

/// A big-endian value is below two to the power of eight times its
/// length.
pub proof fn lemma_be_bytes_nat_bound(s: Seq<u8>)
    ensures
        be_bytes_nat(s) < pow2(8 * s.len()),
    decreases s.len(),
{
    if s.len() == 0 {
        lemma2_to64();
    } else {
        let head = s.drop_last();
        lemma_be_bytes_nat_bound(head);
        lemma_pow2_adds(8 * head.len(), 8);
        lemma2_to64();
        lemma_mul_inequality(
            be_bytes_nat(head) as int,
            pow2(8 * head.len()) as int - 1,
            256,
        );
    }
}

/// A big-endian value splits into its first byte, weighted by the
/// length of the rest, plus the value of the rest.
pub proof fn lemma_be_bytes_nat_split_first(s: Seq<u8>)
    requires
        s.len() >= 1,
    ensures
        be_bytes_nat(s) == s[0] * pow2((8 * (s.len() - 1)) as nat) + be_bytes_nat(s.skip(1)),
    decreases s.len(),
{
    lemma2_to64();
    if s.len() == 1 {
        assert(s.drop_last().len() == 0);
        assert(s.skip(1).len() == 0);
        assert(be_bytes_nat(s.drop_last()) == 0);
        assert(be_bytes_nat(s.skip(1)) == 0);
        assert(s.last() == s[0]);
        assert(be_bytes_nat(s) == 0 * 256 + s.last() as nat);
        assert(pow2(0) == 1);
        assert(s[0] * pow2(0) == s[0]) by (nonlinear_arith)
            requires pow2(0) == 1;
    } else {
        let head = s.drop_last();
        lemma_be_bytes_nat_split_first(head);
        assert(head.skip(1) =~= s.skip(1).drop_last());
        assert(s.skip(1).last() == s.last());
        let k = 8 * (head.len() - 1);
        let h0 = s[0] as int;
        let tail_head = be_bytes_nat(head.skip(1)) as int;
        assert(be_bytes_nat(s) == (h0 * pow2(k as nat) + tail_head) * 256 + s.last());
        lemma_mul_is_distributive_add(256, h0 * pow2(k as nat) as int, tail_head);
        lemma_mul_is_associative(h0, pow2(k as nat) as int, 256);
        lemma_pow2_adds(k as nat, 8);
        assert(pow2(k as nat) * 256 == pow2((k + 8) as nat));
        assert(be_bytes_nat(s) == h0 * pow2((k + 8) as nat) + (tail_head * 256 + s.last()));
        assert(be_bytes_nat(s.skip(1)) == tail_head * 256 + s.last());
    }
}

/// A 32-byte hash is below the target exactly when its first byte is
/// below sixteen: the target puts the top four bits at zero.
pub proof fn lemma_meets_target_first_byte(hash: Seq<u8>)
    requires
        hash.len() == 32,
    ensures
        meets_target(hash) <==> hash[0] < 16,
{
    lemma_be_bytes_nat_split_first(hash);
    lemma_be_bytes_nat_bound(hash.skip(1));
    lemma_pow2_adds(248, 4);
    lemma2_to64();
    assert(pow_target() == 16 * pow2(248)) by {
        assert(pow2(4) == 16);
    }
    let h0 = hash[0] as int;
    let rest = be_bytes_nat(hash.skip(1)) as int;
    let w = pow2(248) as int;
    assert(be_bytes_nat(hash) == h0 * w + rest);
    if h0 < 16 {
        lemma_mul_inequality(h0, 15, w);
        assert(h0 * w + rest < 16 * w);
    } else {
        lemma_mul_inequality(16, h0, w);
        assert(h0 * w + rest >= 16 * w);
    }
}

/// Whether a 32-byte hash lies below the target.
pub fn hash_meets_target(hash: &Vec<u8>) -> (r: bool)
    requires
        hash@.len() == 32,
    ensures
        r == meets_target(hash@),
{
    proof {
        lemma_meets_target_first_byte(hash@);
    }
    hash[0] < 16
}

/// Whether a block's stored nonce seals it: the recomputed header
/// hash lies below the target.
pub open spec fn spec_pow_valid(b: BlockV) -> bool {
    meets_target(sha256_of(header_bytes(b, b.nonce)))
}

/// The proof-of-work runner over one block.
pub struct ProofOfWork {
    block: Block,
}

impl ProofOfWork {
    /// Wraps a block for mining or validation.
    pub fn new_proof_of_work(block: Block) -> (r: ProofOfWork)
        ensures
            r.spec_block() == block@,
    {
        ProofOfWork { block }
    }

    /// The wrapped block's content.
    pub closed spec fn spec_block(&self) -> BlockV {
        self.block@
    }

    /// Searches nonces from zero until the header hash lies below the
    /// target: the returned nonce is the least that qualifies. Fails
    /// with `MiningExhausted` exactly when no nonce below `MAX_NONCE`
    /// brings the header hash under the target.
    pub fn run(&self) -> (r: Result<(i64, Vec<u8>), ChainError>)
        requires
            self.spec_block().transactions.len() >= 1,
        ensures
            r matches Ok((nonce, hash)) ==> hash@ == sha256_of(header_bytes(self.spec_block(), nonce))
                && meets_target(hash@) && 0 <= nonce && forall|m: i64|
                0 <= m < nonce ==> !meets_target(
                    sha256_of(header_bytes(self.spec_block(), m)),
                ),
            r is Err ==> forall|n: i64|
                0 <= n < MAX_NONCE ==> !meets_target(
                    sha256_of(header_bytes(self.spec_block(), n)),
                ),
            r matches Err(e) ==> e == ChainError::MiningExhausted,
    {
        let mut nonce: i64 = 0;
        while nonce < MAX_NONCE
            invariant
                0 <= nonce <= MAX_NONCE,
                self.spec_block().transactions.len() >= 1,
                forall|m: i64| 0 <= m < nonce ==> !meets_target(
                    sha256_of(header_bytes(self.spec_block(), m)),
                ),
            decreases MAX_NONCE - nonce,
        {
            let data = self.block.prepare_data(nonce);
            let hash = sha256(&data);
            if hash_meets_target(&hash) {
                return Ok((nonce, hash));
            }
            nonce = nonce + 1;
        }
        Err(ChainError::MiningExhausted)
    }

    /// Recomputes the header hash with the stored nonce and checks it
    /// against the target.
    pub fn validate(&self) -> (r: bool)
        requires
            self.spec_block().transactions.len() >= 1,
        ensures
            r == spec_pow_valid(self.spec_block()),
    {
        let data = self.block.prepare_data(self.block.get_nounce());
        let hash = sha256(&data);
        hash_meets_target(&hash)
    }
}

} // verus!

verus! {

impl ProofOfWork {
    /// Hands the wrapped block back.
    pub fn into_block(self) -> (r: Block)
        ensures
            r@ == self.spec_block(),
    {
        self.block
    }
}

} // verus!
