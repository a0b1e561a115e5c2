//! Blocks: a timestamped list of transactions sealed to its parent by
//! a proof-of-work nonce. The header bytes hashed by the puzzle are
//! the parent hash, the Merkle root over the encoded transactions,
//! and the big-endian timestamp, difficulty and nonce, in that order.

use vstd::prelude::*;
use crate::bytes::be4;
use crate::bytes::be8;
use crate::bytes::copy_bytes;
use crate::bytes::push_be4;
use crate::bytes::push_be8;
use crate::bytes::push_bytes;
use crate::bytes::views_of;
use crate::crypto::current_millis;
use crate::crypto::sha256_of;
use crate::merkle::merkle_root;
use crate::merkle::new_merkle_tree;
use crate::transaction::serialize_transaction;
use crate::transaction::tx_enc;
use crate::transaction::txs_view;
use crate::transaction::Transaction;
use crate::transaction::TxV;
use crate::ChainError;

verus! {

/// The mathematical content of a block.
#[verifier::ext_equal]
pub struct BlockV {
    /// Milliseconds since the epoch at construction.
    pub timestamp: i64,
    /// The transactions, in order; never empty.
    pub transactions: Seq<TxV>,
    /// The parent's hash; empty in the genesis block.
    pub prev_block_hash: Seq<u8>,
    /// The SHA-256 of the header bytes.
    pub hash: Seq<u8>,
    /// The nonce that seals the block.
    pub nonce: i64,
    /// The distance from the genesis block.
    pub height: usize,
}

/// A block of the chain.
pub struct Block {
    timestamp: i64,
    transactions: Vec<Transaction>,
    prev_block_hash: Vec<u8>,
    hash: Vec<u8>,
    nonce: i64,
    height: usize,
}

impl View for Block {
    type V = BlockV;

    closed spec fn view(&self) -> BlockV {
        BlockV {
            timestamp: self.timestamp,
            transactions: txs_view(self.transactions@),
            prev_block_hash: self.prev_block_hash@,
            hash: self.hash@,
            nonce: self.nonce,
            height: self.height,
        }
    }
}

/// The encodings of a sequence of transactions.
pub open spec fn txs_encs(txs: Seq<TxV>) -> Seq<Seq<u8>> {
    txs.map_values(|t: TxV| tx_enc(t))
}

/// The Merkle root over a block's encoded transactions.
pub open spec fn spec_hash_transactions(b: BlockV) -> Seq<u8> {
    merkle_root(txs_encs(b.transactions))
}

/// The header bytes sealed by the proof of work: parent hash, Merkle
/// root, then the big-endian timestamp, difficulty and nonce.
pub open spec fn header_bytes(b: BlockV, nonce: i64) -> Seq<u8> {
    b.prev_block_hash + spec_hash_transactions(b) + be8(b.timestamp as u64) + be4(
        crate::pow::TARGET_BITS,
    ) + be8(nonce as u64)
}

/// The block a fresh construction tries to seal: the given
/// transactions and parent under a drawn timestamp, before any nonce
/// is found.
pub open spec fn block_candidate(
    transactions: Seq<TxV>,
    prev_block_hash: Seq<u8>,
    height: usize,
    timestamp: i64,
) -> BlockV {
    BlockV {
        timestamp,
        transactions,
        prev_block_hash,
        hash: Seq::empty(),
        nonce: 0,
        height,
    }
}

/// No nonce below the search bound seals the candidate built from
/// these parts under timestamp `ts`.
pub open spec fn mining_hopeless(
    transactions: Seq<TxV>,
    prev_block_hash: Seq<u8>,
    height: usize,
    ts: i64,
) -> bool {
    forall|n: i64|
        0 <= n < crate::pow::MAX_NONCE ==> !crate::pow::meets_target(
            #[trigger] sha256_of(
                header_bytes(block_candidate(transactions, prev_block_hash, height, ts), n),
            ),
        )
}

/// Whether a block is sealed: its stored hash is the SHA-256 of its
/// own header bytes under its stored nonce, that hash lies below the
/// target, and the block carries at least one transaction.
pub open spec fn sealed(b: BlockV) -> bool {
    &&& b.hash == sha256_of(header_bytes(b, b.nonce))
    &&& crate::pow::meets_target(b.hash)
    &&& b.transactions.len() >= 1
}

/// Two blocks with the same transactions have the same Merkle root,
/// whatever their other fields: the root is a function of the
/// transactions alone.
pub proof fn lemma_hash_transactions_stable(b1: BlockV, b2: BlockV)
    requires
        b1.transactions == b2.transactions,
    ensures
        spec_hash_transactions(b1) == spec_hash_transactions(b2),
{
}

/// The concatenated encodings of a sequence of transactions.
pub open spec fn enc_txs(s: Seq<TxV>) -> Seq<u8>
    decreases s.len(),
{
    if s.len() == 0 {
        Seq::empty()
    } else {
        enc_txs(s.drop_last()) + tx_enc(s.last())
    }
}

/// The persisted form of a block: timestamp, nonce, height, parent
/// hash, own hash, then the counted transactions.
pub open spec fn block_enc(b: BlockV) -> Seq<u8> {
    be8(b.timestamp as u64) + be8(b.nonce as u64) + be8(b.height as u64) + crate::transaction::enc_bytes(
        b.prev_block_hash,
    ) + crate::transaction::enc_bytes(b.hash) + be8(b.transactions.len() as u64) + enc_txs(
        b.transactions,
    )
}

impl Block {
    /// Encodes the block.
    pub fn serialize(&self) -> (r: Vec<u8>)
        ensures
            r@ == block_enc(self@),
    {
        let mut out: Vec<u8> = Vec::new();
        push_be8(&mut out, #[verifier::truncate] (self.timestamp as u64));
        push_be8(&mut out, #[verifier::truncate] (self.nonce as u64));
        push_be8(&mut out, self.height as u64);
        push_be8(&mut out, self.prev_block_hash.len() as u64);
        push_bytes(&mut out, &self.prev_block_hash);
        push_be8(&mut out, self.hash.len() as u64);
        push_bytes(&mut out, &self.hash);
        push_be8(&mut out, self.transactions.len() as u64);
        let ghost head: Seq<u8> = be8(self@.timestamp as u64) + be8(self@.nonce as u64) + be8(
            self@.height as u64,
        ) + crate::transaction::enc_bytes(self@.prev_block_hash) + crate::transaction::enc_bytes(
            self@.hash,
        ) + be8(self@.transactions.len() as u64);
        proof {
            assert(out@ =~= head);
            assert(self@.transactions.take(0) =~= Seq::<TxV>::empty());
        }
        let mut i: usize = 0;
        while i < self.transactions.len()
            invariant
                i <= self.transactions.len(),
                self@.transactions.len() == self.transactions.len(),
                out@ == head + enc_txs(self@.transactions.take(i as int)),
            decreases self.transactions.len() - i,
        {
            let encoded = serialize_transaction(&self.transactions[i]);
            push_bytes(&mut out, &encoded);
            proof {
                assert(self@.transactions.take(i + 1).drop_last() =~= self@.transactions.take(
                    i as int,
                ));
                assert(self@.transactions.take(i + 1).last() == self@.transactions[i as int]);
                assert(out@ =~= head + (enc_txs(self@.transactions.take(i as int)) + tx_enc(
                    self@.transactions[i as int],
                )));
            }
            i = i + 1;
        }
        proof {
            assert(self@.transactions.take(self@.transactions.len() as int)
                =~= self@.transactions);
            assert(out@ =~= block_enc(self@));
        }
        out
    }

    /// Decodes a block from its persisted form.
    pub fn deserialize_block(data: &Vec<u8>) -> (r: Option<Block>)
        ensures
            r matches Some(b) ==> crate::codec::sp_block(data@, 0) == Some(
                (b@, data@.len() as int),
            ),
            r is None ==> forall|b: BlockV| crate::codec::sp_block(data@, 0) != Some(
                (b, data@.len() as int),
            ),
    {
        crate::codec::deserialize_block(data)
    }

    /// The Merkle root over the block's encoded transactions.
    pub fn hash_transactions(&self) -> (r: Vec<u8>)
        requires
            self@.transactions.len() >= 1,
        ensures
            r@ == spec_hash_transactions(self@),
    {
        let mut encoded: Vec<Vec<u8>> = Vec::new();
        let mut i: usize = 0;
        while i < self.transactions.len()
            invariant
                i <= self.transactions.len(),
                self@.transactions.len() == self.transactions.len(),
                encoded@.len() == i,
                forall|j: int| 0 <= j < i ==> encoded@[j]@ == tx_enc(self@.transactions[j]),
            decreases self.transactions.len() - i,
        {
            encoded.push(serialize_transaction(&self.transactions[i]));
            i = i + 1;
        }
        proof {
            assert(views_of(encoded@) =~= txs_encs(self@.transactions));
        }
        let tree = new_merkle_tree(encoded);
        tree.root_node.data
    }

    /// The header bytes under the given nonce.
    pub fn prepare_data(&self, nonce: i64) -> (r: Vec<u8>)
        requires
            self@.transactions.len() >= 1,
        ensures
            r@ == header_bytes(self@, nonce),
    {
        let mut data = copy_bytes(&self.prev_block_hash);
        let root = self.hash_transactions();
        push_bytes(&mut data, &root);
        push_be8(&mut data, #[verifier::truncate] (self.timestamp as u64));
        push_be4(&mut data, crate::pow::TARGET_BITS);
        push_be8(&mut data, #[verifier::truncate] (nonce as u64));
        proof {
            assert(data@ =~= header_bytes(self@, nonce));
        }
        data
    }

    /// Builds and seals a block: captures the clock, then searches
    /// the least nonce whose header hash lies below the target. Fails
    /// only when, for the drawn timestamp, no nonce in the search
    /// range seals the block.
    pub fn new_block(
        transactions: Vec<Transaction>,
        prev_block_hash: Vec<u8>,
        height: usize,
    ) -> (r: Result<Block, ChainError>)
        requires
            transactions@.len() >= 1,
        ensures
            r matches Ok(b) ==> sealed(b@) && b@.transactions == txs_view(transactions@)
                && b@.prev_block_hash == prev_block_hash@ && b@.height == height && forall|m: i64|
                0 <= m < b@.nonce ==> !crate::pow::meets_target(
                    sha256_of(header_bytes(b@, m)),
                ),
            r is Err ==> exists|ts: i64| mining_hopeless(
                txs_view(transactions@),
                prev_block_hash@,
                height,
                ts,
            ),
            r matches Err(e) ==> e == ChainError::MiningExhausted,
    {
        let ghost txv: Seq<TxV> = txs_view(transactions@);
        let ghost pv: Seq<u8> = prev_block_hash@;
        let timestamp = current_millis();
        let block = Block {
            timestamp,
            transactions,
            prev_block_hash,
            hash: Vec::new(),
            nonce: 0,
            height,
        };
        proof {
            assert(block@ =~= block_candidate(txv, pv, height, timestamp));
        }
        let pow = crate::pow::ProofOfWork::new_proof_of_work(block);
        let (nonce, hash) = match pow.run() {
            Ok(p) => p,
            Err(e) => {
                proof {
                    assert(mining_hopeless(txv, pv, height, timestamp));
                }
                return Err(e);
            },
        };
        let ghost mined: BlockV = pow.spec_block();
        let mut block = pow.into_block();
        block.nonce = nonce;
        block.hash = hash;
        proof {
            assert(spec_hash_transactions(block@) == spec_hash_transactions(mined));
            assert(header_bytes(block@, nonce) =~= header_bytes(mined, nonce));
            assert(sealed(block@));
            assert forall|m: i64| 0 <= m < block@.nonce implies !crate::pow::meets_target(
                sha256_of(header_bytes(block@, m)),
            ) by {
                assert(header_bytes(block@, m) =~= header_bytes(mined, m));
            }
        }
        Ok(block)
    }

    /// Builds the genesis block: height zero, no parent.
    pub fn new_genesis_block(coinbase: Vec<Transaction>) -> (r: Result<Block, ChainError>)
        requires
            coinbase@.len() >= 1,
        ensures
            r matches Ok(b) ==> sealed(b@) && b@.transactions == txs_view(coinbase@)
                && b@.prev_block_hash == Seq::<u8>::empty() && b@.height == 0,
            r is Err ==> exists|ts: i64| mining_hopeless(
                txs_view(coinbase@),
                Seq::<u8>::empty(),
                0,
                ts,
            ),
            r matches Err(e) ==> e == ChainError::MiningExhausted,
    {
        Block::new_block(coinbase, Vec::new(), 0)
    }

    /// The parent's hash.
    pub fn get_prev_block_hash(&self) -> (r: Vec<u8>)
        ensures
            r@ == self@.prev_block_hash,
    {
        copy_bytes(&self.prev_block_hash)
    }

    /// A borrow of the block's hash.
    pub fn get_hash_ref(&self) -> (r: &Vec<u8>)
        ensures
            r@ == self@.hash,
    {
        &self.hash
    }

    /// A borrow of the parent's hash.
    pub fn get_prev_hash_ref(&self) -> (r: &Vec<u8>)
        ensures
            r@ == self@.prev_block_hash,
    {
        &self.prev_block_hash
    }

    /// The block's hash.
    pub fn get_hash(&self) -> (r: Vec<u8>)
        ensures
            r@ == self@.hash,
    {
        copy_bytes(&self.hash)
    }

    /// The transactions, in order.
    pub fn get_transactions(&self) -> (r: Vec<Transaction>)
        ensures
            txs_view(r@) == self@.transactions,
            r@.len() == self@.transactions.len(),
    {
        let mut r: Vec<Transaction> = Vec::new();
        let mut i: usize = 0;
        while i < self.transactions.len()
            invariant
                i <= self.transactions.len(),
                self@.transactions.len() == self.transactions.len(),
                r@.len() == i,
                forall|j: int| 0 <= j < i ==> r@[j]@ == self@.transactions[j],
            decreases self.transactions.len() - i,
        {
            r.push(self.transactions[i].duplicate());
            i = i + 1;
        }
        proof {
            assert(txs_view(r@) =~= self@.transactions);
        }
        r
    }

    /// The construction timestamp in milliseconds.
    pub fn get_timestamp(&self) -> (r: i64)
        ensures
            r == self@.timestamp,
    {
        self.timestamp
    }

    /// The nonce that seals the block.
    pub fn get_nounce(&self) -> (r: i64)
        ensures
            r == self@.nonce,
    {
        self.nonce
    }

    /// The block's height.
    pub fn get_height(&self) -> (r: usize)
        ensures
            r == self@.height,
    {
        self.height
    }

    /// The first transaction in the block with the given id.
    pub fn find_tx_by_id<'a>(&'a self, id: &Vec<u8>) -> (r: Option<&'a Transaction>)
        ensures
            r matches Some(t) ==> crate::transaction::find_tx(self@.transactions, id@) == Some(t@),
            r is None ==> crate::transaction::find_tx(self@.transactions, id@) is None,
    {
        crate::transaction::find_transaction_in(&self.transactions, id)
    }

    /// How many transactions the block carries.
    pub fn tx_count(&self) -> (r: usize)
        ensures
            r == self@.transactions.len(),
    {
        self.transactions.len()
    }

    /// A block equal to this one.
    pub fn duplicate(&self) -> (r: Block)
        ensures
            r@ == self@,
    {
        let r = Block {
            timestamp: self.timestamp,
            transactions: self.get_transactions(),
            prev_block_hash: copy_bytes(&self.prev_block_hash),
            hash: copy_bytes(&self.hash),
            nonce: self.nonce,
            height: self.height,
        };
        proof {
            assert(r@ =~= self@);
        }
        r
    }

    /// Rebuilds a block from its parts; nothing is checked here, the
    /// chain store checks the seal before it admits a block.
    pub fn from_parts(
        timestamp: i64,
        transactions: Vec<Transaction>,
        prev_block_hash: Vec<u8>,
        hash: Vec<u8>,
        nonce: i64,
        height: usize,
    ) -> (r: Block)
        ensures
            r@ == (BlockV {
                timestamp,
                transactions: txs_view(transactions@),
                prev_block_hash: prev_block_hash@,
                hash: hash@,
                nonce,
                height,
            }),
    {
        Block { timestamp, transactions, prev_block_hash, hash, nonce, height }
    }
}

} // verus!
