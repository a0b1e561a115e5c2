//! The chain store: hash-linked blocks held by content, a tip pointer
//! at maximal height, and the queries derived from them — lookups,
//! the tip-first walk, transaction search and the unspent-output scan.

use vstd::prelude::*;
use crate::block::sealed;
use crate::block::Block;
use crate::block::BlockV;
use crate::bytes::bytes_eq;
use crate::bytes::copy_bytes;
use crate::crypto::sha256;
use crate::pow::hash_meets_target;
use crate::transaction::find_tx;
use crate::transaction::outs_view;
use crate::transaction::spec_is_coinbase;
use crate::transaction::Transaction;
use crate::transaction::TxOutV;
use crate::transaction::TxV;
use crate::transaction::TXOutput;
use crate::utxo::utxo_push_out;
use crate::ChainError;

verus! {

/// The views of a sequence of blocks.
pub open spec fn blocks_view(s: Seq<Block>) -> Seq<BlockV> {
    s.map_values(|b: Block| b@)
}

/// The mathematical content of a chain store.
#[verifier::ext_equal]
pub struct ChainV {
    /// Every stored block, in arrival order; the genesis block first.
    pub blocks: Seq<BlockV>,
    /// The hash of a stored block of maximal height.
    pub tip: Seq<u8>,
}

/// The first stored block with the given hash.
pub open spec fn lookup(bs: Seq<BlockV>, h: Seq<u8>) -> Option<BlockV>
    decreases bs.len(),
{
    if bs.len() == 0 {
        None
    } else if bs[0].hash == h {
        Some(bs[0])
    } else {
        lookup(bs.skip(1), h)
    }
}

/// The store's invariant. Every block is sealed by its proof of work;
/// hashes are distinct; every non-genesis block's parent is stored
/// one height below it; the tip names a stored block of maximal
/// height; and heights stay below the number of blocks.
pub open spec fn wf(c: ChainV) -> bool {
    &&& c.blocks.len() >= 1
    &&& c.blocks[0].prev_block_hash.len() == 0
    &&& c.blocks[0].height == 0
    &&& forall|i: int| 0 <= i < c.blocks.len() ==> sealed(#[trigger] c.blocks[i])
    &&& forall|i: int, j: int|
        0 <= i < c.blocks.len() && 0 <= j < c.blocks.len() && i != j ==> c.blocks[i].hash
            != c.blocks[j].hash
    &&& forall|i: int|
        1 <= i < c.blocks.len() ==> (#[trigger] lookup(c.blocks, c.blocks[i].prev_block_hash))
            is Some && lookup(c.blocks, c.blocks[i].prev_block_hash).unwrap().height + 1
            == c.blocks[i].height
    &&& lookup(c.blocks, c.tip) is Some
    &&& forall|i: int|
        0 <= i < c.blocks.len() ==> (#[trigger] c.blocks[i].height) <= lookup(
            c.blocks,
            c.tip,
        ).unwrap().height
    &&& forall|i: int| 0 <= i < c.blocks.len() ==> (#[trigger] c.blocks[i].height) < c.blocks.len()
}

/// The height of the tip block.
pub open spec fn spec_best_height(c: ChainV) -> usize {
    lookup(c.blocks, c.tip).unwrap().height
}

/// Looking a hash up in an extended store finds what it found before,
/// or the new block when the hash was absent and matches.
pub proof fn lemma_lookup_push(bs: Seq<BlockV>, b: BlockV, h: Seq<u8>)
    ensures
        lookup(bs.push(b), h) == (if lookup(bs, h) is Some {
            lookup(bs, h)
        } else if b.hash == h {
            Some(b)
        } else {
            None::<BlockV>
        }),
    decreases bs.len(),
{
    if bs.len() == 0 {
        assert(bs.push(b)[0] == b);
        assert(bs.push(b).skip(1) =~= Seq::<BlockV>::empty());
        assert(lookup(bs, h) is None);
        if b.hash == h {
            assert(lookup(bs.push(b), h) == Some(b));
        } else {
            assert(lookup(bs.push(b).skip(1), h) is None);
            assert(lookup(bs.push(b), h) is None);
        }
    } else {
        assert(bs.push(b)[0] == bs[0]);
        assert(bs.push(b).skip(1) =~= bs.skip(1).push(b));
        lemma_lookup_push(bs.skip(1), b, h);
        if bs[0].hash == h {
            assert(lookup(bs.push(b), h) == Some(bs[0]));
            assert(lookup(bs, h) == Some(bs[0]));
        } else {
            assert(lookup(bs.push(b), h) == lookup(bs.skip(1).push(b), h));
            assert(lookup(bs, h) == lookup(bs.skip(1), h));
        }
    }
}

/// A found block is one of the stored blocks.
pub proof fn lemma_lookup_member(bs: Seq<BlockV>, h: Seq<u8>)
    requires
        lookup(bs, h) is Some,
    ensures
        exists|i: int|
            0 <= i < bs.len() && bs[i] == lookup(bs, h).unwrap() && bs[i].hash == h,
    decreases bs.len(),
{
    if bs[0].hash == h {
    } else {
        lemma_lookup_member(bs.skip(1), h);
        let i = choose|i: int|
            0 <= i < bs.skip(1).len() && bs.skip(1)[i] == lookup(bs.skip(1), h).unwrap()
                && bs.skip(1)[i].hash == h;
        assert(bs[i + 1] == bs.skip(1)[i]);
    }
}

/// When some stored block has the hash, the lookup finds one.
pub proof fn lemma_lookup_present(bs: Seq<BlockV>, i: int)
    requires
        0 <= i < bs.len(),
    ensures
        lookup(bs, bs[i].hash) is Some,
    decreases bs.len(),
{
    if bs[0].hash == bs[i].hash {
    } else {
        assert(i >= 1);
        assert(bs.skip(1)[i - 1] == bs[i]);
        lemma_lookup_present(bs.skip(1), i - 1);
    }
}

/// The chain store.
pub struct Blockchain {
    blocks: Vec<Block>,
    tip: Vec<u8>,
}

impl View for Blockchain {
    type V = ChainV;

    closed spec fn view(&self) -> ChainV {
        ChainV { blocks: blocks_view(self.blocks@), tip: self.tip@ }
    }
}

impl Blockchain {
    /// Finds the stored block with the given hash.
    fn find_block<'a>(&'a self, hash: &Vec<u8>) -> (r: Option<&'a Block>)
        ensures
            r matches Some(b) ==> lookup(self@.blocks, hash@) == Some(b@),
            r is None ==> lookup(self@.blocks, hash@) is None,
    {
        let ghost bs: Seq<BlockV> = self@.blocks;
        proof {
            assert(bs.skip(0) =~= bs);
        }
        let mut i: usize = 0;
        while i < self.blocks.len()
            invariant
                i <= self.blocks.len(),
                bs == self@.blocks,
                bs.len() == self.blocks.len(),
                lookup(bs, hash@) == lookup(bs.skip(i as int), hash@),
            decreases self.blocks.len() - i,
        {
            proof {
                assert(bs.skip(i as int)[0] == bs[i as int]);
                assert(bs.skip(i as int).skip(1) =~= bs.skip(i + 1));
            }
            if bytes_eq(self.blocks[i].get_hash_ref(), hash) {
                return Some(&self.blocks[i]);
            }
            i = i + 1;
        }
        proof {
            assert(bs.skip(self.blocks.len() as int).len() == 0);
        }
        None
    }

    /// Builds a fresh store holding only the genesis block: a single
    /// coinbase paying `address`, with `genesis_data` as its filler.
    /// Fails with `InvalidAddress` when the address does not decode
    /// and `MiningExhausted` when the genesis block cannot be sealed.
    pub fn create_blockchain(address: &Vec<u8>, genesis_data: Vec<u8>) -> (r: Result<
        Blockchain,
        ChainError,
    >)
        ensures
            r matches Ok(c) ==> wf(c@) && c@.blocks.len() == 1 && spec_is_coinbase(
                c@.blocks[0].transactions[0],
            ) && c@.blocks[0].transactions.len() == 1 && c@.tip == c@.blocks[0].hash
                && spec_best_height(c@) == 0,
            r matches Ok(c) ==> exists|p: Seq<u8>|
                #![trigger crate::crypto::base58_of(p)]
                crate::crypto::base58_of(p) == address@ && p.len() >= 5
                    && c@.blocks[0].transactions[0] == crate::transaction::coinbase_shape(
                    crate::wallet::pkh_of_payload(p),
                    if genesis_data@.len() == 0 {
                        crate::transaction::default_coinbase_data(address@)
                    } else {
                        genesis_data@
                    },
                ),
            (r == Err::<Blockchain, ChainError>(ChainError::InvalidAddress)) <==> (forall|
                p: Seq<u8>,
            | #[trigger] crate::crypto::base58_of(p) == address@ ==> p.len() < 5),
            r == Err::<Blockchain, ChainError>(ChainError::MiningExhausted) ==> exists|
                ts: i64,
                cb: TxV,
            | #[trigger] crate::block::mining_hopeless(seq![cb], Seq::<u8>::empty(), 0, ts)
                && spec_is_coinbase(cb),
            r matches Err(e) ==> e == ChainError::InvalidAddress || e
                == ChainError::MiningExhausted,
    {
        let coinbase = match crate::transaction::new_coinbase_tx(address, genesis_data) {
            Some(t) => t,
            None => {
                return Err(ChainError::InvalidAddress);
            },
        };
        let ghost cbv: TxV = coinbase@;
        let genesis_txs = vec![coinbase];
        let ghost gtv: Seq<TxV> = crate::transaction::txs_view(genesis_txs@);
        proof {
            assert(gtv =~= seq![cbv]);
        }
        let genesis = match Block::new_genesis_block(genesis_txs) {
            Ok(b) => b,
            Err(e) => {
                proof {
                    let ts = choose|ts: i64|
                        crate::block::mining_hopeless(gtv, Seq::<u8>::empty(), 0, ts);
                    assert(crate::block::mining_hopeless(seq![cbv], Seq::<u8>::empty(), 0, ts));
                }
                return Err(e);
            },
        };
        let tip = genesis.get_hash();
        let blocks = vec![genesis];
        let c = Blockchain { blocks, tip };
        proof {
            assert(c@.blocks.len() == 1);
            assert(lookup(c@.blocks, c@.tip) == Some(c@.blocks[0])) by {
                assert(c@.blocks[0].hash == c@.tip);
            }
            assert(wf(c@));
        }
        Ok(c)
    }

    /// The height of the tip block.
    pub fn get_best_height(&self) -> (r: usize)
        requires
            wf(self@),
        ensures
            r == spec_best_height(self@),
    {
        let tip_block = match self.find_block(&self.tip) {
            Some(b) => b,
            None => {
                proof {
                    assert(false);
                }
                unreached()
            },
        };
        tip_block.get_height()
    }

    /// The stored block with the given hash, if any.
    pub fn get_block(&self, block_hash: &Vec<u8>) -> (r: Option<Block>)
        ensures
            r matches Some(b) ==> lookup(self@.blocks, block_hash@) == Some(b@),
            r is None ==> lookup(self@.blocks, block_hash@) is None,
    {
        match self.find_block(block_hash) {
            Some(b) => Some(b.duplicate()),
            None => None,
        }
    }
}

} // verus!

verus! {

/// Every transaction held by the store, in block order.
pub open spec fn chain_txs(bs: Seq<BlockV>) -> Seq<TxV>
    decreases bs.len(),
{
    if bs.len() == 0 {
        Seq::empty()
    } else {
        bs[0].transactions + chain_txs(bs.skip(1))
    }
}

impl Blockchain {
    /// Finds the first transaction with the given id, scanning the
    /// active chain backwards from the tip. Fails with `NotFound`
    /// when no block on the active chain holds it.
    pub fn find_transaction(&self, id: &Vec<u8>) -> (r: Result<Transaction, ChainError>)
        requires
            wf(self@),
        ensures
            r matches Ok(t) ==> find_tx(chain_txs(chain_walk(self@)), id@) == Some(t@),
            r matches Err(e) ==> e == ChainError::NotFound && find_tx(
                chain_txs(chain_walk(self@)),
                id@,
            ) is None,
    {
        let ghost ws: Seq<BlockV> = chain_walk(self@);
        let walk = self.blocks_tip_first();
        proof {
            assert(ws.skip(0) =~= ws);
        }
        let mut i: usize = 0;
        while i < walk.len()
            invariant
                i <= walk.len(),
                ws == chain_walk(self@),
                ws == blocks_view(walk@),
                ws.len() == walk.len(),
                find_tx(chain_txs(ws), id@) == find_tx(chain_txs(ws.skip(i as int)), id@),
            decreases walk.len() - i,
        {
            proof {
                assert(ws.skip(i as int)[0] == ws[i as int]);
                assert(ws.skip(i as int).skip(1) =~= ws.skip(i + 1));
                crate::transaction::lemma_find_tx_concat(
                    ws[i as int].transactions,
                    chain_txs(ws.skip(i + 1)),
                    id@,
                );
                assert(walk@[i as int]@ == ws[i as int]);
            }
            match walk[i].find_tx_by_id(id) {
                Some(t) => {
                    return Ok(t.duplicate());
                },
                None => {},
            }
            i = i + 1;
        }
        proof {
            assert(ws.skip(walk@.len() as int).len() == 0);
        }
        Err(ChainError::NotFound)
    }

    /// Collects, for each input of `tx`, the stored transaction it
    /// references, so that lookups among the collected transactions
    /// agree with lookups over the whole store.
    fn collect_prev_txs(&self, tx: &Transaction) -> (r: Vec<Transaction>)
        requires
            wf(self@),
        ensures
            forall|j: int| 0 <= j < tx@.vin.len() ==> find_tx(
                crate::transaction::txs_view(r@),
                #[trigger] tx@.vin[j].txid,
            ) == find_tx(chain_txs(chain_walk(self@)), tx@.vin[j].txid),
    {
        let ghost bs: Seq<BlockV> = chain_walk(self@);
        let vins = tx.get_vin();
        let mut prevs: Vec<Transaction> = Vec::new();
        let mut i: usize = 0;
        while i < vins.len()
            invariant
                i <= vins.len(),
                wf(self@),
                bs == chain_walk(self@),
                crate::transaction::ins_view(vins@) == tx@.vin,
                vins@.len() == tx@.vin.len(),
                forall|id: Seq<u8>| find_tx(crate::transaction::txs_view(prevs@), id) is Some
                    ==> find_tx(crate::transaction::txs_view(prevs@), id) == find_tx(
                    chain_txs(bs),
                    id,
                ),
                forall|j: int| 0 <= j < i ==> find_tx(
                    crate::transaction::txs_view(prevs@),
                    #[trigger] tx@.vin[j].txid,
                ) == find_tx(chain_txs(bs), tx@.vin[j].txid),
            decreases vins.len() - i,
        {
            let txid = vins[i].get_txid();
            let ghost before: Seq<TxV> = crate::transaction::txs_view(prevs@);
            match self.find_transaction(&txid) {
                Ok(p) => {
                    let ghost pv: TxV = p@;
                    prevs.push(p);
                    proof {
                        assert(crate::transaction::txs_view(prevs@) =~= before.push(pv));
                        crate::transaction::lemma_find_tx_id(chain_txs(bs), txid@);
                        assert(pv.id == txid@);
                        assert forall|id: Seq<u8>| find_tx(before.push(pv), id) is Some implies
                            find_tx(before.push(pv), id) == find_tx(chain_txs(bs), id) by {
                            crate::transaction::lemma_find_tx_push(before, pv, id);
                            if find_tx(before, id) is Some {
                            } else {
                                assert(pv.id == id);
                            }
                        }
                        assert forall|j: int| 0 <= j < i + 1 implies find_tx(
                            before.push(pv),
                            #[trigger] tx@.vin[j].txid,
                        ) == find_tx(chain_txs(bs), tx@.vin[j].txid) by {
                            crate::transaction::lemma_find_tx_push(before, pv, tx@.vin[j].txid);
                        }
                    }
                },
                Err(_) => {
                    proof {
                        assert(find_tx(chain_txs(bs), tx@.vin[i as int].txid) is None);
                        if find_tx(before, tx@.vin[i as int].txid) is Some {
                            assert(find_tx(before, tx@.vin[i as int].txid) == find_tx(
                                chain_txs(bs),
                                tx@.vin[i as int].txid,
                            ));
                            assert(false);
                        }
                    }
                },
            }
            i = i + 1;
        }
        prevs
    }

    /// Verifies a transaction against the transactions the store
    /// holds: a coinbase by itself, any other by every input's
    /// signature over the payload its signer hashed.
    pub fn verify_transaction(&self, tx: &Transaction) -> (r: Result<bool, ChainError>)
        requires
            wf(self@),
        ensures
            spec_is_coinbase(tx@) ==> r == Ok::<bool, ChainError>(true),
            r matches Ok(b) ==> b == crate::transaction::tx_verifies(
                tx@,
                chain_txs(chain_walk(self@)),
            ),
            r matches Err(e) ==> e == ChainError::InputUnknown && !crate::transaction::resolvable(
                tx@,
                chain_txs(chain_walk(self@)),
            ),
            crate::transaction::resolvable(tx@, chain_txs(chain_walk(self@))) ==> r is Ok,
    {
        if tx.is_coinbase() {
            return Ok(true);
        }
        let prevs = self.collect_prev_txs(tx);
        let r = tx.verify(&prevs);
        proof {
            crate::transaction::lemma_verify_same_prevs(
                tx@,
                crate::transaction::txs_view(prevs@),
                chain_txs(chain_walk(self@)),
            );
        }
        r
    }

    /// Signs a transaction's inputs with the given private key,
    /// resolving each referenced transaction in the store.
    pub fn sign_transaction(&self, tx: &mut Transaction, private_key: &Vec<u8>) -> (r: Result<
        (),
        ChainError,
    >)
        requires
            wf(self@),
        ensures
            r matches Err(e) ==> *final(tx) == *old(tx) && (e == ChainError::InputUnknown || e
                == ChainError::KeyDecodeError),
            r == Err::<(), ChainError>(ChainError::InputUnknown)
                ==> !crate::transaction::resolvable(old(tx)@, chain_txs(chain_walk(self@))),
            crate::transaction::resolvable(old(tx)@, chain_txs(chain_walk(self@))) ==> r != Err::<
                (),
                ChainError,
            >(ChainError::InputUnknown),
            r is Ok ==> final(tx)@.id == old(tx)@.id && final(tx)@.vout == old(tx)@.vout
                && final(tx)@.vin.len() == old(tx)@.vin.len(),
            r is Ok ==> forall|j: int|
                0 <= j < old(tx)@.vin.len() ==> (#[trigger] final(tx)@.vin[j]).txid
                    == old(tx)@.vin[j].txid && final(tx)@.vin[j].vout == old(tx)@.vin[j].vout
                    && final(tx)@.vin[j].pub_key == old(tx)@.vin[j].pub_key,
            r is Ok && !crate::transaction::spec_is_coinbase(old(tx)@) ==> forall|j: int|
                0 <= j < old(tx)@.vin.len() ==> (#[trigger] final(tx)@.vin[j]).signature.len()
                    == 64,
            r is Ok && !crate::transaction::spec_is_coinbase(old(tx)@) && (forall|j: int|
                0 <= j < old(tx)@.vin.len() ==> (#[trigger] old(tx)@.vin[j]).pub_key
                    == crate::crypto::p256_public_key_of(private_key@))
                ==> crate::transaction::tx_verifies(final(tx)@, chain_txs(chain_walk(self@))),
    {
        let ghost walk_prevs: Seq<TxV> = chain_txs(chain_walk(self@));
        let prevs = self.collect_prev_txs(tx);
        let ghost pv: Seq<TxV> = crate::transaction::txs_view(prevs@);
        let r = tx.sign(private_key, &prevs);
        proof {
            crate::transaction::lemma_verify_same_prevs(old(tx)@, pv, walk_prevs);
            if r is Ok && !crate::transaction::spec_is_coinbase(old(tx)@) && (forall|j: int|
                0 <= j < old(tx)@.vin.len() ==> (#[trigger] old(tx)@.vin[j]).pub_key
                    == crate::crypto::p256_public_key_of(private_key@)) {
                assert forall|i: int| 0 <= i < tx@.vin.len() implies
                    crate::transaction::input_sig_ok(tx@, pv, i) by {
                    assert(tx@.vin[i].pub_key == old(tx)@.vin[i].pub_key);
                    assert(crate::crypto::ecdsa_p256_sig_ok(
                        crate::crypto::p256_public_key_of(private_key@),
                        crate::transaction::signing_payload(tx@, pv, i),
                        tx@.vin[i].signature,
                    ));
                }
                assert(crate::transaction::tx_verifies(tx@, pv));
                assert forall|j: int| 0 <= j < tx@.vin.len() implies find_tx(
                    pv,
                    #[trigger] tx@.vin[j].txid,
                ) == find_tx(walk_prevs, tx@.vin[j].txid) by {
                    assert(tx@.vin[j].txid == old(tx)@.vin[j].txid);
                }
                crate::transaction::lemma_verify_same_prevs(tx@, pv, walk_prevs);
                assert(crate::transaction::tx_verifies(tx@, walk_prevs));
            }
        }
        r
    }
}

} // verus!

verus! {

/// Whether a block may join the store: it is sealed and its parent is
/// stored one height below it.
pub open spec fn admissible(c: ChainV, b: BlockV) -> bool {
    &&& sealed(b)
    &&& lookup(c.blocks, b.prev_block_hash) is Some
    &&& lookup(c.blocks, b.prev_block_hash).unwrap().height + 1 == b.height
}

/// The tip after a block joins: the new block's hash when it is
/// strictly higher than the old tip, else the old tip.
pub open spec fn tip_after(c: ChainV, b: BlockV) -> Seq<u8> {
    if b.height > spec_best_height(c) {
        b.hash
    } else {
        c.tip
    }
}

/// Admitting an admissible, absent block preserves the store's
/// invariant, under the longest-height tip rule.
pub proof fn lemma_wf_push(c: ChainV, b: BlockV)
    requires
        wf(c),
        admissible(c, b),
        lookup(c.blocks, b.hash) is None,
    ensures
        wf(ChainV { blocks: c.blocks.push(b), tip: tip_after(c, b) }),
        spec_best_height(ChainV { blocks: c.blocks.push(b), tip: tip_after(c, b) }) == (
        if b.height > spec_best_height(c) {
            b.height
        } else {
            spec_best_height(c)
        }),
{
    let bs = c.blocks;
    let nbs = bs.push(b);
    let nc = ChainV { blocks: nbs, tip: tip_after(c, b) };
    assert(nbs[0] == bs[0]);
    assert forall|i: int| 0 <= i < nbs.len() implies sealed(#[trigger] nbs[i]) by {
        if i < bs.len() {
            assert(nbs[i] == bs[i]);
        } else {
            assert(nbs[i] == b);
        }
    }
    assert forall|i: int| 0 <= i < bs.len() implies bs[i].hash != b.hash by {
        if bs[i].hash == b.hash {
            lemma_lookup_present(bs, i);
        }
    }
    assert forall|i: int, j: int|
        0 <= i < nbs.len() && 0 <= j < nbs.len() && i != j implies nbs[i].hash != nbs[j].hash by {
        if i < bs.len() && j < bs.len() {
            assert(nbs[i] == bs[i] && nbs[j] == bs[j]);
        } else if i < bs.len() {
            assert(nbs[i] == bs[i] && nbs[j] == b);
        } else {
            assert(nbs[i] == b && j < bs.len() && nbs[j] == bs[j]);
        }
    }
    assert forall|i: int|
        1 <= i < nbs.len() implies (#[trigger] lookup(nbs, nbs[i].prev_block_hash)) is Some
        && lookup(nbs, nbs[i].prev_block_hash).unwrap().height + 1 == nbs[i].height by {
        if i < bs.len() {
            assert(nbs[i] == bs[i]);
            lemma_lookup_push(bs, b, bs[i].prev_block_hash);
        } else {
            assert(nbs[i] == b);
            lemma_lookup_push(bs, b, b.prev_block_hash);
        }
    }
    lemma_lookup_push(bs, b, c.tip);
    lemma_lookup_push(bs, b, b.hash);
    assert(lookup(nbs, b.hash) == Some(b));
    let old_best = spec_best_height(c);
    if b.height > old_best {
        assert(nc.tip == b.hash);
        assert(lookup(nbs, nc.tip) == Some(b));
        assert forall|i: int| 0 <= i < nbs.len() implies (#[trigger] nbs[i].height)
            <= lookup(nbs, nc.tip).unwrap().height by {
            if i < bs.len() {
                assert(nbs[i] == bs[i]);
            } else {
                assert(nbs[i] == b);
            }
        }
    } else {
        assert(nc.tip == c.tip);
        assert(lookup(nbs, nc.tip) == lookup(bs, c.tip));
        assert forall|i: int| 0 <= i < nbs.len() implies (#[trigger] nbs[i].height)
            <= lookup(nbs, nc.tip).unwrap().height by {
            if i < bs.len() {
                assert(nbs[i] == bs[i]);
            } else {
                assert(nbs[i] == b);
            }
        }
    }
    assert forall|i: int| 0 <= i < nbs.len() implies (#[trigger] nbs[i].height) < nbs.len() by {
        if i < bs.len() {
            assert(nbs[i] == bs[i]);
        } else {
            assert(nbs[i] == b);
            let p = lookup(bs, b.prev_block_hash).unwrap();
            lemma_lookup_member(bs, b.prev_block_hash);
            let k = choose|k: int|
                0 <= k < bs.len() && bs[k] == lookup(bs, b.prev_block_hash).unwrap()
                    && bs[k].hash == b.prev_block_hash;
            assert(bs[k].height < bs.len());
        }
    }
}

impl Blockchain {
    /// Verifies every given transaction against the store, then mines
    /// a block holding them on top of the tip and advances the tip to
    /// it. Fails with `BadSignature` when a transaction does not
    /// verify, `InputUnknown` when one cannot be resolved,
    /// `MiningExhausted` when no nonce seals the block, and
    /// `Malformed` when the sealed block's hash is already taken; on
    /// failure the store is unchanged.
    pub fn mine_block(&mut self, transactions: Vec<Transaction>) -> (r: Result<Block, ChainError>)
        requires
            wf(old(self)@),
            transactions@.len() >= 1,
        ensures
            wf(final(self)@),
            r matches Ok(b) ==> sealed(b@) && b@.prev_block_hash == old(self)@.tip && b@.height
                == spec_best_height(old(self)@) + 1 && b@.transactions
                == crate::transaction::txs_view(transactions@)
                && final(self)@.blocks == old(self)@.blocks.push(b@)
                && final(self)@.tip == b@.hash && spec_best_height(final(self)@)
                == spec_best_height(old(self)@) + 1,
            r matches Ok(_) ==> forall|k: int|
                0 <= k < transactions@.len() ==> crate::transaction::tx_verifies(
                    #[trigger] transactions@[k]@,
                    chain_txs(chain_walk(old(self)@)),
                ),
            r matches Err(_) ==> *final(self) == *old(self),
            r == Err::<Block, ChainError>(ChainError::BadSignature) ==> exists|k: int|
                0 <= k < transactions@.len() && !crate::transaction::tx_verifies(
                    #[trigger] transactions@[k]@,
                    chain_txs(chain_walk(old(self)@)),
                ),
            r == Err::<Block, ChainError>(ChainError::InputUnknown) ==> exists|k: int|
                0 <= k < transactions@.len() && !crate::transaction::resolvable(
                    #[trigger] transactions@[k]@,
                    chain_txs(chain_walk(old(self)@)),
                ),
            r == Err::<Block, ChainError>(ChainError::MiningExhausted) ==> exists|ts: i64|
                #[trigger] crate::block::mining_hopeless(
                    crate::transaction::txs_view(transactions@),
                    old(self)@.tip,
                    (spec_best_height(old(self)@) + 1) as usize,
                    ts,
                ),
            r matches Err(e) ==> e == ChainError::BadSignature || e == ChainError::InputUnknown
                || e == ChainError::MiningExhausted || e == ChainError::Malformed,
    {
        let ghost oldv: ChainV = self@;
        let mut k: usize = 0;
        while k < transactions.len()
            invariant
                k <= transactions.len(),
                oldv == self@,
                wf(oldv),
                transactions@.len() == transactions.len(),
                forall|j: int| 0 <= j < k ==> crate::transaction::tx_verifies(
                    #[trigger] transactions@[j]@,
                    chain_txs(chain_walk(oldv)),
                ),
            decreases transactions.len() - k,
        {
            match self.verify_transaction(&transactions[k]) {
                Ok(true) => {},
                Ok(false) => {
                    proof {
                        assert(!crate::transaction::tx_verifies(
                            transactions@[k as int]@,
                            chain_txs(chain_walk(oldv)),
                        ));
                    }
                    return Err(ChainError::BadSignature);
                },
                Err(e) => {
                    proof {
                        assert(!crate::transaction::resolvable(
                            transactions@[k as int]@,
                            chain_txs(chain_walk(oldv)),
                        ));
                    }
                    return Err(e);
                },
            }
            k = k + 1;
        }
        let best_height = self.get_best_height();
        let stored = self.blocks.len();
        proof {
            lemma_lookup_member(oldv.blocks, oldv.tip);
            let i = choose|i: int|
                0 <= i < oldv.blocks.len() && oldv.blocks[i] == lookup(
                    oldv.blocks,
                    oldv.tip,
                ).unwrap() && oldv.blocks[i].hash == oldv.tip;
            assert(oldv.blocks[i].height < oldv.blocks.len());
            assert(oldv.blocks.len() == stored);
            assert(best_height < stored);
        }
        let prev_hash = copy_bytes(&self.tip);
        let block = match Block::new_block(transactions, prev_hash, best_height + 1) {
            Ok(b) => b,
            Err(e) => {
                return Err(e);
            },
        };
        if self.find_block(block.get_hash_ref()).is_some() {
            return Err(ChainError::Malformed);
        }
        let block_hash = block.get_hash();
        let ghost bv: BlockV = block@;
        let returned = block.duplicate();
        self.blocks.push(block);
        self.tip = block_hash;
        proof {
            assert(self@.blocks =~= oldv.blocks.push(bv));
            assert(admissible(oldv, bv));
            assert(tip_after(oldv, bv) == bv.hash);
            lemma_wf_push(oldv, bv);
            assert(self@ =~= ChainV { blocks: oldv.blocks.push(bv), tip: tip_after(oldv, bv) });
        }
        Ok(returned)
    }

    /// Admits a block received from a peer. A block already stored is
    /// silently kept once; an admissible new block is stored, and the
    /// tip moves to it when it is strictly higher than the tip. A
    /// block that is not sealed or whose parent is absent or at the
    /// wrong height is rejected with `Malformed`, leaving the store
    /// unchanged.
    pub fn add_block(&mut self, block: Block) -> (r: Result<(), ChainError>)
        requires
            wf(old(self)@),
        ensures
            wf(final(self)@),
            lookup(old(self)@.blocks, block@.hash) is Some ==> r is Ok
                && *final(self) == *old(self),
            lookup(old(self)@.blocks, block@.hash) is None && admissible(old(self)@, block@)
                ==> r is Ok && final(self)@.blocks == old(self)@.blocks.push(block@)
                && final(self)@.tip == tip_after(old(self)@, block@),
            lookup(old(self)@.blocks, block@.hash) is None && !admissible(old(self)@, block@) ==> r
                == Err::<(), ChainError>(ChainError::Malformed) && *final(self) == *old(self),
            r matches Err(e) ==> e == ChainError::Malformed,
    {
        let ghost oldv: ChainV = self@;
        let ghost bv: BlockV = block@;
        if self.find_block(block.get_hash_ref()).is_some() {
            return Ok(());
        }
        if block.tx_count() == 0 {
            return Err(ChainError::Malformed);
        }
        let header = block.prepare_data(block.get_nounce());
        let expected = sha256(&header);
        if !bytes_eq(&expected, block.get_hash_ref()) {
            return Err(ChainError::Malformed);
        }
        if !hash_meets_target(&expected) {
            return Err(ChainError::Malformed);
        }
        let parent_height: usize;
        match self.find_block(block.get_prev_hash_ref()) {
            Some(p) => {
                parent_height = p.get_height();
            },
            None => {
                return Err(ChainError::Malformed);
            },
        }
        let stored = self.blocks.len();
        proof {
            lemma_lookup_member(oldv.blocks, bv.prev_block_hash);
            let i = choose|i: int|
                0 <= i < oldv.blocks.len() && oldv.blocks[i] == lookup(
                    oldv.blocks,
                    bv.prev_block_hash,
                ).unwrap() && oldv.blocks[i].hash == bv.prev_block_hash;
            assert(oldv.blocks[i].height < oldv.blocks.len());
            assert(oldv.blocks.len() == stored);
            assert(parent_height < stored);
        }
        if block.get_height() != parent_height + 1 {
            return Err(ChainError::Malformed);
        }
        proof {
            assert(admissible(oldv, bv));
        }
        let tip_moves = block.get_height() > self.get_best_height();
        let block_hash = block.get_hash();
        self.blocks.push(block);
        if tip_moves {
            self.tip = block_hash;
        }
        proof {
            assert(self@.blocks =~= oldv.blocks.push(bv));
            assert(self@.tip == tip_after(oldv, bv));
            lemma_wf_push(oldv, bv);
            assert(self@ =~= ChainV { blocks: oldv.blocks.push(bv), tip: tip_after(oldv, bv) });
        }
        Ok(())
    }
}

} // verus!

verus! {

/// The tip-first parent walk: the block named by `h`, then its
/// ancestors, until the genesis block or the fuel runs out.
pub open spec fn walk(bs: Seq<BlockV>, h: Seq<u8>, fuel: nat) -> Seq<BlockV>
    decreases fuel,
{
    if fuel == 0 || lookup(bs, h) is None {
        Seq::empty()
    } else {
        let b = lookup(bs, h).unwrap();
        if b.prev_block_hash.len() == 0 {
            seq![b]
        } else {
            seq![b] + walk(bs, b.prev_block_hash, (fuel - 1) as nat)
        }
    }
}

/// The walk from the tip: the active chain, tip first.
pub open spec fn chain_walk(c: ChainV) -> Seq<BlockV> {
    walk(c.blocks, c.tip, (spec_best_height(c) + 1) as nat)
}

/// The hashes of a sequence of blocks.
pub open spec fn hashes_of(ws: Seq<BlockV>) -> Seq<Seq<u8>> {
    ws.map_values(|b: BlockV| b.hash)
}

/// Whether a transaction spends output `idx` of transaction `id`:
/// some input of a non-coinbase transaction references it.
pub open spec fn spends(t: TxV, id: Seq<u8>, idx: i64) -> bool {
    !spec_is_coinbase(t) && exists|k: int|
        0 <= k < t.vin.len() && t.vin[k].txid == id && t.vin[k].vout == idx
}

/// Whether some transaction strictly before position (`bi`, `ti`) of
/// the tip-first walk spends output `idx` of transaction `id`. Blocks
/// nearer the tip come first, so these are the spends the scan has
/// already seen.
pub open spec fn spent_before(ws: Seq<BlockV>, bi: int, ti: int, id: Seq<u8>, idx: i64) -> bool {
    exists|b2: int, t2: int|
        0 <= b2 < ws.len() && 0 <= t2 < ws[b2].transactions.len() && (b2 < bi || (b2 == bi && t2
            < ti)) && spends(ws[b2].transactions[t2], id, idx)
}

/// The outputs of the transaction at (`bi`, `ti`), from index `from`
/// on, that no earlier-seen input spends.
pub open spec fn surv_outs(ws: Seq<BlockV>, bi: int, ti: int, from: int) -> Seq<TxOutV>
    decreases ws[bi].transactions[ti].vout.len() - from,
{
    let t = ws[bi].transactions[ti];
    if from < 0 || from >= t.vout.len() {
        Seq::empty()
    } else {
        (if spent_before(ws, bi, ti, t.id, from as i64) {
            Seq::empty()
        } else {
            seq![t.vout[from]]
        }) + surv_outs(ws, bi, ti, from + 1)
    }
}

/// The unspent outputs credited to `id` by the transactions of block
/// `bi` from position `ti` on.
pub open spec fn entry_txs(ws: Seq<BlockV>, bi: int, ti: int, id: Seq<u8>) -> Seq<TxOutV>
    decreases ws[bi].transactions.len() - ti,
{
    if bi < 0 || bi >= ws.len() || ti < 0 || ti >= ws[bi].transactions.len() {
        Seq::empty()
    } else {
        (if ws[bi].transactions[ti].id == id {
            surv_outs(ws, bi, ti, 0)
        } else {
            Seq::empty()
        }) + entry_txs(ws, bi, ti + 1, id)
    }
}

/// The unspent outputs credited to `id` by the walk from block `bi`
/// on.
pub open spec fn entry_blocks(ws: Seq<BlockV>, bi: int, id: Seq<u8>) -> Seq<TxOutV>
    decreases ws.len() - bi,
{
    if bi < 0 || bi >= ws.len() {
        Seq::empty()
    } else {
        entry_txs(ws, bi, 0, id) + entry_blocks(ws, bi + 1, id)
    }
}

/// The unspent outputs of transaction `id` over the whole walk: what
/// the chain scan owes the index under that key.
pub open spec fn utxo_entry(ws: Seq<BlockV>, id: Seq<u8>) -> Seq<TxOutV> {
    entry_blocks(ws, 0, id)
}

/// Moving the scan boundary past one transaction adds exactly that
/// transaction's spends.
proof fn lemma_spent_before_tx_step(ws: Seq<BlockV>, bi: int, ti: int, id: Seq<u8>, idx: i64)
    requires
        0 <= bi < ws.len(),
        0 <= ti < ws[bi].transactions.len(),
    ensures
        spent_before(ws, bi, ti + 1, id, idx) == (spent_before(ws, bi, ti, id, idx) || spends(
            ws[bi].transactions[ti],
            id,
            idx,
        )),
{
    if spent_before(ws, bi, ti + 1, id, idx) {
        let (b2, t2) = choose|b2: int, t2: int|
            0 <= b2 < ws.len() && 0 <= t2 < ws[b2].transactions.len() && (b2 < bi || (b2 == bi
                && t2 < ti + 1)) && spends(ws[b2].transactions[t2], id, idx);
        if b2 == bi && t2 == ti {
        } else {
            assert(spent_before(ws, bi, ti, id, idx));
        }
    }
    if spent_before(ws, bi, ti, id, idx) {
        assert(spent_before(ws, bi, ti + 1, id, idx));
    }
    if spends(ws[bi].transactions[ti], id, idx) {
        assert(spent_before(ws, bi, ti + 1, id, idx));
    }
}

/// The boundary at the start of a block equals the boundary past the
/// end of the block before it.
proof fn lemma_spent_before_block_step(ws: Seq<BlockV>, bi: int, id: Seq<u8>, idx: i64)
    requires
        0 <= bi < ws.len(),
    ensures
        spent_before(ws, bi + 1, 0, id, idx) == spent_before(
            ws,
            bi,
            ws[bi].transactions.len() as int,
            id,
            idx,
        ),
{
    let n = ws[bi].transactions.len() as int;
    if spent_before(ws, bi + 1, 0, id, idx) {
        let (b2, t2) = choose|b2: int, t2: int|
            0 <= b2 < ws.len() && 0 <= t2 < ws[b2].transactions.len() && (b2 < bi + 1 || (b2 == bi
                + 1 && t2 < 0)) && spends(ws[b2].transactions[t2], id, idx);
        assert(b2 < bi || (b2 == bi && t2 < n));
        assert(spent_before(ws, bi, n, id, idx));
    }
    if spent_before(ws, bi, n, id, idx) {
        let (b2, t2) = choose|b2: int, t2: int|
            0 <= b2 < ws.len() && 0 <= t2 < ws[b2].transactions.len() && (b2 < bi || (b2 == bi
                && t2 < n)) && spends(ws[b2].transactions[t2], id, idx);
        assert(spent_before(ws, bi + 1, 0, id, idx));
    }
}

/// Whether the scanned spends hold the pair (`id`, `idx`).
pub open spec fn spent_has(s: Seq<(Vec<u8>, Vec<i64>)>, id: Seq<u8>, idx: i64) -> bool {
    exists|i: int, k: int|
        0 <= i < s.len() && 0 <= k < s[i].1@.len() && s[i].0@ == id && s[i].1@[k] == idx
}

/// Whether the scanned spends hold the pair.
fn spent_contains(s: &Vec<(Vec<u8>, Vec<i64>)>, id: &Vec<u8>, idx: i64) -> (r: bool)
    ensures
        r == spent_has(s@, id@, idx),
{
    let mut i: usize = 0;
    while i < s.len()
        invariant
            i <= s.len(),
            forall|a: int, k: int|
                0 <= a < i && 0 <= k < s@[a].1@.len() ==> !(s@[a].0@ == id@ && s@[a].1@[k] == idx),
        decreases s.len() - i,
    {
        if bytes_eq(&s[i].0, id) {
            let mut k: usize = 0;
            while k < s[i].1.len()
                invariant
                    i < s@.len(),
                    s@[i as int].0@ == id@,
                    k <= s@[i as int].1@.len(),
                    forall|k2: int| 0 <= k2 < k ==> s@[i as int].1@[k2] != idx,
                decreases s@[i as int].1@.len() - k,
            {
                if s[i].1[k] == idx {
                    proof {
                        let gi = i as int;
                        let gk = k as int;
                        assert(0 <= gi < s@.len() && 0 <= gk < s@[gi].1@.len() && s@[gi].0@ == id@
                            && s@[gi].1@[gk] == idx);
                        assert(spent_has(s@, id@, idx));
                    }
                    return true;
                }
                k = k + 1;
            }
        }
        i = i + 1;
    }
    proof {
        if spent_has(s@, id@, idx) {
            let (a, b) = choose|a: int, b: int|
                0 <= a < s@.len() && 0 <= b < s@[a].1@.len() && s@[a].0@ == id@ && s@[a].1@[b]
                    == idx;
            assert(false);
        }
    }
    false
}

/// Records a spent pair.
#[verifier::spinoff_prover]
fn spent_push(s: &mut Vec<(Vec<u8>, Vec<i64>)>, id: Vec<u8>, idx: i64)
    ensures
        forall|id2: Seq<u8>, k: i64| spent_has(final(s)@, id2, k) == (spent_has(old(s)@, id2, k)
            || (id2 == id@ && k == idx)),
{
    let ghost before: Seq<(Vec<u8>, Vec<i64>)> = s@;
    let mut idxs: Vec<i64> = Vec::new();
    idxs.push(idx);
    let ghost pv = (id@, idxs@);
    s.push((id, idxs));
    proof {
        assert forall|id2: Seq<u8>, k: i64| spent_has(s@, id2, k) == (spent_has(before, id2, k) || (
        id2 == pv.0 && k == idx)) by {
            if spent_has(before, id2, k) {
                let (a, b) = choose|a: int, b: int|
                    0 <= a < before.len() && 0 <= b < before[a].1@.len() && before[a].0@ == id2
                        && before[a].1@[b] == k;
                assert(s@[a] == before[a]);
                assert(spent_has(s@, id2, k));
            }
            if id2 == pv.0 && k == idx {
                let n = before.len() as int;
                assert(s@[n].0@ == id2 && s@[n].1@[0] == k);
                assert(0 <= n < s@.len() && 0 <= 0 < s@[n].1@.len() && s@[n].0@ == id2
                    && s@[n].1@[0] == k);
                assert(spent_has(s@, id2, k));
            }
            if spent_has(s@, id2, k) {
                let (a, b) = choose|a: int, b: int|
                    0 <= a < s@.len() && 0 <= b < s@[a].1@.len() && s@[a].0@ == id2 && s@[a].1@[b]
                        == k;
                if a < before.len() {
                    assert(before[a] == s@[a]);
                    assert(0 <= a < before.len() && 0 <= b < before[a].1@.len() && before[a].0@
                        == id2 && before[a].1@[b] == k);
                    assert(spent_has(before, id2, k));
                } else {
                    assert(s@[a].1@[b] == idx);
                }
            }
        }
    }
}

impl Blockchain {
    /// The stored blocks of the active chain, tip first, each linked
    /// to the next by its parent hash.
    pub fn blocks_tip_first(&self) -> (r: Vec<Block>)
        requires
            wf(self@),
        ensures
            blocks_view(r@) == chain_walk(self@),
    {
        let ghost c: ChainV = self@;
        let ghost ws: Seq<BlockV> = chain_walk(c);
        let mut out: Vec<Block> = Vec::new();
        let mut current = copy_bytes(&self.tip);
        let mut done = false;
        proof {
            assert(blocks_view(out@) =~= Seq::<BlockV>::empty());
            assert(ws == Seq::<BlockV>::empty() + walk(
                c.blocks,
                current@,
                (lookup(c.blocks, current@).unwrap().height + 1) as nat,
            ));
        }
        while !done
            invariant
                wf(c),
                c == self@,
                !done ==> lookup(c.blocks, current@) is Some,
                !done ==> ws == blocks_view(out@) + walk(
                    c.blocks,
                    current@,
                    (lookup(c.blocks, current@).unwrap().height + 1) as nat,
                ),
                done ==> ws == blocks_view(out@),
            decreases (if done {
                0
            } else {
                lookup(c.blocks, current@).unwrap().height + 1
            }),
        {
            let ghost bv: BlockV = lookup(c.blocks, current@).unwrap();
            let ghost fuel: nat = (bv.height + 1) as nat;
            let b = match self.find_block(&current) {
                Some(b) => b,
                None => {
                    proof {
                        assert(false);
                    }
                    unreached()
                },
            };
            let prev = b.get_prev_block_hash();
            let copied = b.duplicate();
            out.push(copied);
            proof {
                assert(walk(c.blocks, current@, fuel) == (if bv.prev_block_hash.len() == 0 {
                    seq![bv]
                } else {
                    seq![bv] + walk(c.blocks, bv.prev_block_hash, (fuel - 1) as nat)
                }));
            }
            if prev.len() == 0 {
                done = true;
                proof {
                    assert(blocks_view(out@) =~= blocks_view(out@.drop_last()) + seq![bv]);
                    assert(ws =~= blocks_view(out@));
                }
            } else {
                proof {
                    lemma_lookup_member(c.blocks, current@);
                    let i = choose|i: int|
                        0 <= i < c.blocks.len() && c.blocks[i] == lookup(
                            c.blocks,
                            current@,
                        ).unwrap() && c.blocks[i].hash == current@;
                    assert(c.blocks[i] == bv);
                    if i == 0 {
                        assert(c.blocks[0].prev_block_hash.len() == 0);
                        assert(false);
                    }
                    assert(lookup(c.blocks, c.blocks[i].prev_block_hash) is Some);
                    assert(lookup(c.blocks, bv.prev_block_hash).unwrap().height + 1 == bv.height);
                    assert(blocks_view(out@) =~= blocks_view(out@.drop_last()) + seq![bv]);
                    assert((fuel - 1) as nat == (lookup(c.blocks, bv.prev_block_hash).unwrap().height
                        + 1) as nat);
                    assert(ws =~= blocks_view(out@) + walk(
                        c.blocks,
                        bv.prev_block_hash,
                        (fuel - 1) as nat,
                    ));
                }
                current = prev;
            }
        }
        out
    }

    /// The hashes of the active chain, tip first.
    pub fn get_block_hashes(&self) -> (r: Vec<Vec<u8>>)
        requires
            wf(self@),
        ensures
            crate::bytes::views_of(r@) == hashes_of(chain_walk(self@)),
    {
        let blocks = self.blocks_tip_first();
        let mut hashes: Vec<Vec<u8>> = Vec::new();
        let mut i: usize = 0;
        while i < blocks.len()
            invariant
                i <= blocks.len(),
                blocks_view(blocks@) == chain_walk(self@),
                blocks@.len() == chain_walk(self@).len(),
                hashes@.len() == i,
                forall|j: int| 0 <= j < i ==> hashes@[j]@ == chain_walk(self@)[j].hash,
            decreases blocks.len() - i,
        {
            hashes.push(blocks[i].get_hash());
            i = i + 1;
        }
        proof {
            assert(crate::bytes::views_of(hashes@) =~= hashes_of(chain_walk(self@)));
        }
        hashes
    }
}

} // verus!

verus! {

impl Blockchain {
    /// Scans the active chain tip first and returns, keyed by
    /// transaction id, every output that no input of a scanned
    /// transaction spends. Inputs seen nearer the tip mark outputs
    /// spent before those outputs are reached.
    pub fn find_utxo(&self) -> (r: Vec<(Vec<u8>, Vec<TXOutput>)>)
        requires
            wf(self@),
        ensures
            crate::utxo::utxo_keys_ok(r@),
            forall|id: Seq<u8>| crate::utxo::assoc_outs(r@, id) == utxo_entry(
                chain_walk(self@),
                id,
            ),
    {
        let ghost ws: Seq<BlockV> = chain_walk(self@);
        let walk_blocks = self.blocks_tip_first();
        let mut utxo: Vec<(Vec<u8>, Vec<TXOutput>)> = Vec::new();
        let mut spent: Vec<(Vec<u8>, Vec<i64>)> = Vec::new();
        proof {
            assert forall|id: Seq<u8>| crate::utxo::assoc_outs(utxo@, id) == Seq::<
                TxOutV,
            >::empty() by {}
            assert forall|id: Seq<u8>, k: i64| !spent_has(spent@, id, k) by {}
            assert forall|id: Seq<u8>, k: i64| !spent_before(ws, 0, 0, id, k) by {}
            assert forall|id: Seq<u8>| utxo_entry(ws, id) == crate::utxo::assoc_outs(utxo@, id)
                + entry_blocks(ws, 0, id) by {
                assert(Seq::<TxOutV>::empty() + entry_blocks(ws, 0, id) =~= entry_blocks(
                    ws,
                    0,
                    id,
                ));
            }
        }
        let mut bi: usize = 0;
        while bi < walk_blocks.len()
            invariant
                bi <= walk_blocks.len(),
                blocks_view(walk_blocks@) == ws,
                walk_blocks@.len() == ws.len(),
                crate::utxo::utxo_keys_ok(utxo@),
                forall|id: Seq<u8>| utxo_entry(ws, id) == crate::utxo::assoc_outs(utxo@, id)
                    + entry_blocks(ws, bi as int, id),
                forall|id: Seq<u8>, k: i64| spent_has(spent@, id, k) == spent_before(
                    ws,
                    bi as int,
                    0,
                    id,
                    k,
                ),
            decreases walk_blocks.len() - bi,
        {
            let ghost gbi: int = bi as int;
            let txs = walk_blocks[bi].get_transactions();
            proof {
                assert(walk_blocks@[gbi]@ == ws[gbi]);
                assert forall|id: Seq<u8>| utxo_entry(ws, id) == crate::utxo::assoc_outs(utxo@, id)
                    + entry_txs(ws, gbi, 0, id) + entry_blocks(ws, gbi + 1, id) by {
                    assert(entry_blocks(ws, gbi, id) == entry_txs(ws, gbi, 0, id) + entry_blocks(
                        ws,
                        gbi + 1,
                        id,
                    ));
                    assert(crate::utxo::assoc_outs(utxo@, id) + (entry_txs(ws, gbi, 0, id)
                        + entry_blocks(ws, gbi + 1, id)) =~= crate::utxo::assoc_outs(utxo@, id)
                        + entry_txs(ws, gbi, 0, id) + entry_blocks(ws, gbi + 1, id));
                }
            }
            let mut ti: usize = 0;
            while ti < txs.len()
                invariant
                    ti <= txs.len(),
                    bi < walk_blocks.len(),
                    gbi == bi as int,
                    blocks_view(walk_blocks@) == ws,
                    walk_blocks@.len() == ws.len(),
                    crate::transaction::txs_view(txs@) == ws[gbi].transactions,
                    txs@.len() == ws[gbi].transactions.len(),
                    crate::utxo::utxo_keys_ok(utxo@),
                    forall|id: Seq<u8>| utxo_entry(ws, id) == crate::utxo::assoc_outs(utxo@, id)
                        + entry_txs(ws, gbi, ti as int, id) + entry_blocks(ws, gbi + 1, id),
                    forall|id: Seq<u8>, k: i64| spent_has(spent@, id, k) == spent_before(
                        ws,
                        gbi,
                        ti as int,
                        id,
                        k,
                    ),
                decreases txs.len() - ti,
            {
                let ghost gti: int = ti as int;
                let ghost t: TxV = ws[gbi].transactions[gti];
                let tx = &txs[ti];
                let txid = tx.get_id();
                let outs = tx.get_vout();
                proof {
                    assert(tx@ == t);
                    assert(txid@ == t.id);
                    assert(outs_view(outs@) == t.vout);
                    assert forall|id: Seq<u8>| utxo_entry(ws, id) == crate::utxo::assoc_outs(
                        utxo@,
                        id,
                    ) + (if t.id == id {
                        surv_outs(ws, gbi, gti, 0)
                    } else {
                        Seq::<TxOutV>::empty()
                    }) + entry_txs(ws, gbi, gti + 1, id) + entry_blocks(ws, gbi + 1, id) by {
                        assert(entry_txs(ws, gbi, gti, id) == (if t.id == id {
                            surv_outs(ws, gbi, gti, 0)
                        } else {
                            Seq::<TxOutV>::empty()
                        }) + entry_txs(ws, gbi, gti + 1, id));
                        assert(crate::utxo::assoc_outs(utxo@, id) + ((if t.id == id {
                            surv_outs(ws, gbi, gti, 0)
                        } else {
                            Seq::<TxOutV>::empty()
                        }) + entry_txs(ws, gbi, gti + 1, id)) + entry_blocks(ws, gbi + 1, id)
                            =~= crate::utxo::assoc_outs(utxo@, id) + (if t.id == id {
                            surv_outs(ws, gbi, gti, 0)
                        } else {
                            Seq::<TxOutV>::empty()
                        }) + entry_txs(ws, gbi, gti + 1, id) + entry_blocks(ws, gbi + 1, id));
                    }
                }
                let mut oi: usize = 0;
                while oi < outs.len()
                    invariant
                        oi <= outs.len(),
                        ti < txs.len(),
                        bi < walk_blocks.len(),
                        gbi == bi as int,
                        gti == ti as int,
                        t == ws[gbi].transactions[gti],
                        blocks_view(walk_blocks@) == ws,
                        walk_blocks@.len() == ws.len(),
                        crate::transaction::txs_view(txs@) == ws[gbi].transactions,
                        txs@.len() == ws[gbi].transactions.len(),
                        txid@ == t.id,
                        outs_view(outs@) == t.vout,
                        outs@.len() == t.vout.len(),
                        crate::utxo::utxo_keys_ok(utxo@),
                        forall|id: Seq<u8>| utxo_entry(ws, id) == crate::utxo::assoc_outs(
                            utxo@,
                            id,
                        ) + (if t.id == id {
                            surv_outs(ws, gbi, gti, oi as int)
                        } else {
                            Seq::<TxOutV>::empty()
                        }) + entry_txs(ws, gbi, gti + 1, id) + entry_blocks(ws, gbi + 1, id),
                        forall|id: Seq<u8>, k: i64| spent_has(spent@, id, k) == spent_before(
                            ws,
                            gbi,
                            gti,
                            id,
                            k,
                        ),
                    decreases outs.len() - oi,
                {
                    let ghost goi: int = oi as int;
                    let idx_i64: i64 = #[verifier::truncate] (oi as i64);
                    proof {
                        assert(idx_i64 == goi as i64);
                        assert(surv_outs(ws, gbi, gti, goi) == (if spent_before(
                            ws,
                            gbi,
                            gti,
                            t.id,
                            goi as i64,
                        ) {
                            Seq::<TxOutV>::empty()
                        } else {
                            seq![t.vout[goi]]
                        }) + surv_outs(ws, gbi, gti, goi + 1));
                    }
                    let ghost before_utxo: Seq<(Vec<u8>, Vec<TXOutput>)> = utxo@;
                    if !spent_contains(&spent, &txid, idx_i64) {
                        utxo_push_out(&mut utxo, &txid, outs[oi].duplicate());
                        proof {
                            assert(outs@[goi]@ == t.vout[goi]);
                            assert forall|id: Seq<u8>| utxo_entry(ws, id)
                                == crate::utxo::assoc_outs(utxo@, id) + (if t.id == id {
                                surv_outs(ws, gbi, gti, goi + 1)
                            } else {
                                Seq::<TxOutV>::empty()
                            }) + entry_txs(ws, gbi, gti + 1, id) + entry_blocks(
                                ws,
                                gbi + 1,
                                id,
                            ) by {
                                if id == t.id {
                                    assert(crate::utxo::assoc_outs(utxo@, id)
                                        == crate::utxo::assoc_outs(before_utxo, id).push(
                                        t.vout[goi],
                                    ));
                                    assert(crate::utxo::assoc_outs(before_utxo, id) + (seq![
                                        t.vout[goi],
                                    ] + surv_outs(ws, gbi, gti, goi + 1)) =~= crate::utxo::assoc_outs(
                                        before_utxo,
                                        id,
                                    ).push(t.vout[goi]) + surv_outs(ws, gbi, gti, goi + 1));
                                    assert(crate::utxo::assoc_outs(before_utxo, id) + (seq![
                                        t.vout[goi],
                                    ] + surv_outs(ws, gbi, gti, goi + 1)) + entry_txs(
                                        ws,
                                        gbi,
                                        gti + 1,
                                        id,
                                    ) + entry_blocks(ws, gbi + 1, id) =~= crate::utxo::assoc_outs(
                                        before_utxo,
                                        id,
                                    ) + seq![t.vout[goi]] + surv_outs(ws, gbi, gti, goi + 1)
                                        + entry_txs(ws, gbi, gti + 1, id) + entry_blocks(
                                        ws,
                                        gbi + 1,
                                        id,
                                    ));
                                    assert(crate::utxo::assoc_outs(before_utxo, id) + surv_outs(
                                        ws,
                                        gbi,
                                        gti,
                                        goi,
                                    ) =~= crate::utxo::assoc_outs(before_utxo, id) + (seq![
                                        t.vout[goi],
                                    ] + surv_outs(ws, gbi, gti, goi + 1)));
                                } else {
                                    assert(crate::utxo::assoc_outs(utxo@, id)
                                        == crate::utxo::assoc_outs(before_utxo, id));
                                }
                            }
                        }
                    } else {
                        proof {
                            assert forall|id: Seq<u8>| utxo_entry(ws, id)
                                == crate::utxo::assoc_outs(utxo@, id) + (if t.id == id {
                                surv_outs(ws, gbi, gti, goi + 1)
                            } else {
                                Seq::<TxOutV>::empty()
                            }) + entry_txs(ws, gbi, gti + 1, id) + entry_blocks(
                                ws,
                                gbi + 1,
                                id,
                            ) by {
                                if id == t.id {
                                    assert(surv_outs(ws, gbi, gti, goi) =~= Seq::<
                                        TxOutV,
                                    >::empty() + surv_outs(ws, gbi, gti, goi + 1));
                                    assert(surv_outs(ws, gbi, gti, goi) == surv_outs(
                                        ws,
                                        gbi,
                                        gti,
                                        goi + 1,
                                    ));
                                }
                            }
                        }
                    }
                    oi = oi + 1;
                }
                proof {
                    assert(surv_outs(ws, gbi, gti, outs@.len() as int) == Seq::<TxOutV>::empty());
                }
                if !tx.is_coinbase() {
                    let vins = tx.get_vin();
                    let mut vi: usize = 0;
                    while vi < vins.len()
                        invariant
                            vi <= vins.len(),
                            crate::transaction::ins_view(vins@) == t.vin,
                            vins@.len() == t.vin.len(),
                            !crate::transaction::spec_is_coinbase(t),
                            forall|id: Seq<u8>, k: i64| spent_has(spent@, id, k) == (spent_before(
                                ws,
                                gbi,
                                gti,
                                id,
                                k,
                            ) || exists|k2: int|
                                0 <= k2 < vi && t.vin[k2].txid == id && t.vin[k2].vout == k),
                        decreases vins.len() - vi,
                    {
                        let ghost gvi: int = vi as int;
                        let ghost before_spent: Seq<(Vec<u8>, Vec<i64>)> = spent@;
                        spent_push(&mut spent, vins[vi].get_txid(), vins[vi].get_vout());
                        proof {
                            assert forall|id: Seq<u8>, k: i64| spent_has(spent@, id, k) == (
                            spent_before(ws, gbi, gti, id, k) || exists|k2: int|
                                0 <= k2 < gvi + 1 && t.vin[k2].txid == id && t.vin[k2].vout
                                    == k) by {
                                if spent_has(spent@, id, k) {
                                    if !spent_has(before_spent, id, k) {
                                        assert(id == t.vin[gvi].txid && k == t.vin[gvi].vout);
                                    }
                                }
                                if spent_before(ws, gbi, gti, id, k) {
                                    assert(spent_has(before_spent, id, k));
                                }
                                if exists|k2: int|
                                    0 <= k2 < gvi + 1 && t.vin[k2].txid == id && t.vin[k2].vout
                                        == k {
                                    let k2 = choose|k2: int|
                                        0 <= k2 < gvi + 1 && t.vin[k2].txid == id
                                            && t.vin[k2].vout == k;
                                    if k2 < gvi {
                                        assert(spent_has(before_spent, id, k));
                                    } else {
                                        assert(id == t.vin[gvi].txid && k == t.vin[gvi].vout);
                                    }
                                }
                            }
                        }
                        vi = vi + 1;
                    }
                    proof {
                        assert forall|id: Seq<u8>, k: i64| spent_has(spent@, id, k)
                            == spent_before(ws, gbi, gti + 1, id, k) by {
                            lemma_spent_before_tx_step(ws, gbi, gti, id, k);
                            if spent_has(spent@, id, k) && !spent_before(ws, gbi, gti, id, k) {
                                let k2 = choose|k2: int|
                                    0 <= k2 < t.vin.len() && t.vin[k2].txid == id
                                        && t.vin[k2].vout == k;
                                assert(spends(t, id, k));
                            }
                            if spends(t, id, k) {
                                let k2 = choose|k2: int|
                                    0 <= k2 < t.vin.len() && t.vin[k2].txid == id
                                        && t.vin[k2].vout == k;
                                assert(exists|k3: int|
                                    0 <= k3 < t.vin.len() && t.vin[k3].txid == id
                                        && t.vin[k3].vout == k);
                            }
                        }
                    }
                } else {
                    proof {
                        assert forall|id: Seq<u8>, k: i64| spent_has(spent@, id, k)
                            == spent_before(ws, gbi, gti + 1, id, k) by {
                            lemma_spent_before_tx_step(ws, gbi, gti, id, k);
                            assert(!spends(t, id, k));
                        }
                    }
                }
                proof {
                    assert forall|id: Seq<u8>| utxo_entry(ws, id) == crate::utxo::assoc_outs(
                        utxo@,
                        id,
                    ) + entry_txs(ws, gbi, gti + 1, id) + entry_blocks(ws, gbi + 1, id) by {
                        assert(crate::utxo::assoc_outs(utxo@, id) + (if t.id == id {
                            surv_outs(ws, gbi, gti, outs@.len() as int)
                        } else {
                            Seq::<TxOutV>::empty()
                        }) =~= crate::utxo::assoc_outs(utxo@, id));
                    }
                }
                ti = ti + 1;
            }
            proof {
                assert forall|id: Seq<u8>| utxo_entry(ws, id) == crate::utxo::assoc_outs(utxo@, id)
                    + entry_blocks(ws, gbi + 1, id) by {
                    assert(entry_txs(ws, gbi, txs@.len() as int, id) == Seq::<TxOutV>::empty());
                    assert(crate::utxo::assoc_outs(utxo@, id) + Seq::<TxOutV>::empty()
                        + entry_blocks(ws, gbi + 1, id) =~= crate::utxo::assoc_outs(utxo@, id)
                        + entry_blocks(ws, gbi + 1, id));
                }
                assert forall|id: Seq<u8>, k: i64| spent_has(spent@, id, k) == spent_before(
                    ws,
                    gbi + 1,
                    0,
                    id,
                    k,
                ) by {
                    lemma_spent_before_block_step(ws, gbi, id, k);
                }
            }
            bi = bi + 1;
        }
        proof {
            assert forall|id: Seq<u8>| crate::utxo::assoc_outs(utxo@, id) == utxo_entry(
                ws,
                id,
            ) by {
                assert(entry_blocks(ws, walk_blocks@.len() as int, id) == Seq::<TxOutV>::empty());
                assert(crate::utxo::assoc_outs(utxo@, id) + Seq::<TxOutV>::empty()
                    =~= crate::utxo::assoc_outs(utxo@, id));
            }
        }
        utxo
    }
}

impl Blockchain {
    /// Opens a store from its persisted parts; the caller's blocks
    /// must satisfy the store's invariant, which `add_block` and
    /// `mine_block` maintain for every store they grow.
    pub fn from_parts(blocks: Vec<Block>, tip: Vec<u8>) -> (r: Result<Blockchain, ChainError>)
        ensures
            r matches Ok(c) ==> c@.blocks == blocks_view(blocks@) && c@.tip == tip@ && wf(c@),
            r matches Err(e) ==> e == ChainError::NotInitialized,
    {
        let c = Blockchain { blocks, tip };
        if c.check_well_formed() {
            Ok(c)
        } else {
            Err(ChainError::NotInitialized)
        }
    }

    /// Checks the store invariant of freshly loaded blocks.
    fn check_well_formed(&self) -> (r: bool)
        ensures
            r == wf(self@),
    {
        let ghost c: ChainV = self@;
        if self.blocks.len() == 0 {
            return false;
        }
        if self.blocks[0].get_prev_hash_ref().len() != 0 || self.blocks[0].get_height() != 0 {
            return false;
        }
        let tip_block = match self.find_block(&self.tip) {
            Some(b) => b,
            None => {
                return false;
            },
        };
        let best = tip_block.get_height();
        let mut i: usize = 0;
        while i < self.blocks.len()
            invariant
                i <= self.blocks.len(),
                c == self@,
                c.blocks.len() == self.blocks.len(),
                c.blocks.len() >= 1,
                c.blocks[0].prev_block_hash.len() == 0,
                c.blocks[0].height == 0,
                lookup(c.blocks, c.tip) is Some,
                best == lookup(c.blocks, c.tip).unwrap().height,
                forall|a: int| 0 <= a < i ==> sealed(#[trigger] c.blocks[a]),
                forall|a: int, b: int|
                    0 <= a < i && 0 <= b < c.blocks.len() && a != b ==> c.blocks[a].hash
                        != c.blocks[b].hash,
                forall|a: int|
                    1 <= a < i ==> (#[trigger] lookup(c.blocks, c.blocks[a].prev_block_hash))
                        is Some && lookup(c.blocks, c.blocks[a].prev_block_hash).unwrap().height
                        + 1 == c.blocks[a].height,
                forall|a: int| 0 <= a < i ==> (#[trigger] c.blocks[a].height) <= best,
                forall|a: int| 0 <= a < i ==> (#[trigger] c.blocks[a].height) < c.blocks.len(),
            decreases self.blocks.len() - i,
        {
            let b = &self.blocks[i];
            proof {
                assert(c.blocks[i as int] == b@);
            }
            if b.tx_count() == 0 {
                proof {
                    assert(!sealed(c.blocks[i as int]));
                }
                return false;
            }
            let header = b.prepare_data(b.get_nounce());
            let expected = sha256(&header);
            if !bytes_eq(&expected, b.get_hash_ref()) {
                proof {
                    assert(!sealed(c.blocks[i as int]));
                }
                return false;
            }
            if !hash_meets_target(&expected) {
                proof {
                    assert(!sealed(c.blocks[i as int]));
                }
                return false;
            }
            let mut j: usize = 0;
            while j < self.blocks.len()
                invariant
                    j <= self.blocks.len(),
                    i < self.blocks.len(),
                    c == self@,
                    c.blocks.len() == self.blocks.len(),
                    forall|b2: int|
                        0 <= b2 < j && b2 != i ==> c.blocks[i as int].hash != (
                        #[trigger] c.blocks[b2]).hash,
                decreases self.blocks.len() - j,
            {
                if j != i {
                    if bytes_eq(self.blocks[i].get_hash_ref(), self.blocks[j].get_hash_ref()) {
                        proof {
                            assert(c.blocks[i as int].hash == c.blocks[j as int].hash);
                            assert(!wf(c));
                        }
                        return false;
                    }
                }
                j = j + 1;
            }
            if i >= 1 {
                let parent = match self.find_block(b.get_prev_hash_ref()) {
                    Some(p) => p,
                    None => {
                        proof {
                            assert(lookup(c.blocks, c.blocks[i as int].prev_block_hash) is None);
                            assert(!wf(c));
                        }
                        return false;
                    },
                };
                let ph = parent.get_height();
                let bh = b.get_height();
                if bh == 0 || ph != bh - 1 {
                    proof {
                        assert(lookup(c.blocks, c.blocks[i as int].prev_block_hash).unwrap().height
                            + 1 != c.blocks[i as int].height);
                        assert(!wf(c));
                    }
                    return false;
                }
            }
            if b.get_height() > best {
                proof {
                    assert(!(c.blocks[i as int].height <= lookup(c.blocks, c.tip).unwrap().height));
                }
                return false;
            }
            let n = self.blocks.len();
            if b.get_height() >= n {
                return false;
            }
            proof {
                assert forall|a: int, b2: int|
                    0 <= a < i + 1 && 0 <= b2 < c.blocks.len() && a != b2 implies c.blocks[a].hash
                    != c.blocks[b2].hash by {}
            }
            i = i + 1;
        }
        true
    }
}

/// Every block the store holds is sealed: its stored hash is the
/// SHA-256 of its own header bytes and lies below the target.
pub proof fn lemma_store_blocks_sealed(c: ChainV, i: int)
    requires
        wf(c),
        0 <= i < c.blocks.len(),
    ensures
        sealed(c.blocks[i]),
        c.blocks[i].hash == crate::crypto::sha256_of(crate::block::header_bytes(
            c.blocks[i],
            c.blocks[i].nonce,
        )),
        crate::pow::meets_target(c.blocks[i].hash),
{
}

/// Every non-genesis block the store holds has its parent stored one
/// height below it.
pub proof fn lemma_store_parent_link(c: ChainV, i: int)
    requires
        wf(c),
        1 <= i < c.blocks.len(),
    ensures
        lookup(c.blocks, c.blocks[i].prev_block_hash) is Some,
        lookup(c.blocks, c.blocks[i].prev_block_hash).unwrap().height + 1 == c.blocks[i].height,
{
}

} // verus!
