//! End-to-end tests of the chain core: hashing, addresses, Merkle
//! roots, proof of work, the store, the unspent-output index, signing
//! and the gossip handlers, all run against the real outside crates.

use utxo_chain::block::Block;
use utxo_chain::chain::Blockchain;
use utxo_chain::crypto::check_sum;
use utxo_chain::crypto::hash_pub_key;
use utxo_chain::crypto::ripe_md_160;
use utxo_chain::crypto::sha256;
use utxo_chain::merkle::new_merkle_tree;
use utxo_chain::pow::ProofOfWork;
use utxo_chain::transaction::new_coinbase_tx;
use utxo_chain::transaction::new_utxo_transaction;
use utxo_chain::transaction::serialize_transaction;
use utxo_chain::transaction::Transaction;
use utxo_chain::transaction::TXInput;
use utxo_chain::utxo::UtxoSet;
use utxo_chain::wallet::calc_address;
use utxo_chain::wallet::validate_address;
use utxo_chain::wallet::Wallet;
use utxo_chain::wallets::new_wallets;
use utxo_chain::ChainError;

fn hex_of(bytes: &[u8]) -> String {
    hex::encode(bytes)
}

fn fresh_wallet() -> Wallet {
    Wallet::new_wallet().expect("key generation")
}

fn balance_of(utxo: &UtxoSet, pkh: &Vec<u8>) -> i64 {
    let mut sum = 0i64;
    for out in utxo.find_utxo(pkh) {
        sum += out.get_value();
    }
    sum
}

#[test]
fn sha256_matches_known_vector() {
    let digest = sha256(&b"abc".to_vec());
    assert_eq!(
        hex_of(&digest),
        "ba7816bf8f01cfea414140de5dae2223b00361a396177a9cb410ff61f20015ad"
    );
}

#[test]
fn ripemd160_matches_known_vector() {
    let digest = ripe_md_160(&Vec::new());
    assert_eq!(hex_of(&digest), "9c1185a5c5e9fc54612808977ee8f548b2258d31");
}

#[test]
fn checksum_is_prefix_of_double_sha() {
    let payload = vec![0u8, 1, 2, 3];
    let cs = check_sum(&payload);
    let full = sha256(&sha256(&payload));
    assert_eq!(cs.as_slice(), &full[..4]);
}

#[test]
fn address_round_trip_validates() {
    let pkh = hash_pub_key(&b"some public key".to_vec());
    let address = calc_address(&pkh);
    assert!(validate_address(&address));
}

#[test]
fn tampered_address_fails_validation() {
    let pkh = hash_pub_key(&b"another public key".to_vec());
    let mut address = calc_address(&pkh);
    let last = address.len() - 1;
    address[last] = if address[last] == b'1' { b'2' } else { b'1' };
    assert!(!validate_address(&address));
}

#[test]
fn merkle_root_of_two_leaves_is_parent_hash() {
    let a = b"left leaf".to_vec();
    let b = b"right leaf".to_vec();
    let tree = new_merkle_tree(vec![a.clone(), b.clone()]);
    let mut joined = sha256(&a);
    joined.extend(sha256(&b));
    assert_eq!(tree.root_node.data, sha256(&joined));
}

#[test]
fn merkle_pads_odd_leaf_list_with_last_leaf() {
    let a = b"only leaf".to_vec();
    let tree = new_merkle_tree(vec![a.clone()]);
    let mut joined = sha256(&a);
    joined.extend(sha256(&a));
    assert_eq!(tree.root_node.data, sha256(&joined));
}

#[test]
fn hash_transactions_is_stable_across_constructions() {
    let w = fresh_wallet();
    let address = w.get_address();
    let cb = new_coinbase_tx(&address, b"stability".to_vec()).expect("coinbase");
    let b1 = Block::new_block(vec![cb.duplicate()], Vec::new(), 0).expect("block one");
    let b2 = Block::new_block(vec![cb], b"parent".to_vec(), 7).expect("block two");
    assert_eq!(b1.hash_transactions(), b2.hash_transactions());
}

#[test]
fn genesis_block_meets_target_and_revalidates() {
    let w = fresh_wallet();
    let chain = Blockchain::create_blockchain(&w.get_address(), b"genesis".to_vec())
        .expect("create");
    let genesis = chain
        .get_block(&chain.blocks_tip_first()[0].get_hash())
        .expect("genesis present");
    assert!(genesis.get_hash()[0] < 16);
    let pow = ProofOfWork::new_proof_of_work(genesis);
    assert!(pow.validate());
}

#[test]
fn fresh_chain_pays_subsidy_to_creator() {
    let w = fresh_wallet();
    let chain = Blockchain::create_blockchain(&w.get_address(), Vec::new()).expect("create");
    assert_eq!(chain.get_best_height(), 0);
    let mut utxo = UtxoSet::new();
    utxo.reindex(&chain);
    assert_eq!(utxo.count_transactions(), 1);
    let pkh = hash_pub_key(&w.get_public_key());
    assert_eq!(balance_of(&utxo, &pkh), 10);
}

#[test]
fn create_blockchain_rejects_bad_address() {
    let result = Blockchain::create_blockchain(&b"0OIl not base58".to_vec(), Vec::new());
    assert!(matches!(result, Err(ChainError::InvalidAddress)));
}

#[test]
fn send_and_mine_moves_value_and_pays_change() {
    let a = fresh_wallet();
    let b = fresh_wallet();
    let mut chain = Blockchain::create_blockchain(&a.get_address(), b"origin".to_vec())
        .expect("create");
    let mut utxo = UtxoSet::new();
    utxo.reindex(&chain);

    let tx = new_utxo_transaction(&a, &b.get_address(), 4, &utxo, &chain).expect("payment");
    assert_eq!(chain.verify_transaction(&tx), Ok(true));

    let cb = new_coinbase_tx(&a.get_address(), Vec::new()).expect("coinbase");
    let block = chain.mine_block(vec![cb, tx]).expect("mine");
    assert_eq!(chain.get_best_height(), 1);
    assert_eq!(block.get_height(), 1);

    utxo.reindex(&chain);
    let pkh_a = hash_pub_key(&a.get_public_key());
    let pkh_b = hash_pub_key(&b.get_public_key());
    assert_eq!(balance_of(&utxo, &pkh_a), 16);
    assert_eq!(balance_of(&utxo, &pkh_b), 4);
}

#[test]
fn overspending_fails_with_insufficient_funds() {
    let a = fresh_wallet();
    let b = fresh_wallet();
    let chain = Blockchain::create_blockchain(&a.get_address(), Vec::new()).expect("create");
    let mut utxo = UtxoSet::new();
    utxo.reindex(&chain);
    let result = new_utxo_transaction(&a, &b.get_address(), 20, &utxo, &chain);
    assert!(matches!(result, Err(ChainError::InsufficientFunds)));
    assert_eq!(chain.get_best_height(), 0);
}

#[test]
fn tampered_signature_fails_verification() {
    let a = fresh_wallet();
    let b = fresh_wallet();
    let chain = Blockchain::create_blockchain(&a.get_address(), Vec::new()).expect("create");
    let mut utxo = UtxoSet::new();
    utxo.reindex(&chain);
    let tx = new_utxo_transaction(&a, &b.get_address(), 4, &utxo, &chain).expect("payment");
    assert_eq!(chain.verify_transaction(&tx), Ok(true));

    let mut inputs: Vec<TXInput> = Vec::new();
    for vin in tx.get_vin() {
        let mut sig = vin.get_signature();
        sig[0] ^= 0x01;
        inputs.push(TXInput::from_parts(
            vin.get_txid(),
            vin.get_vout(),
            sig,
            vin.get_pub_key(),
        ));
    }
    let tampered = Transaction::from_parts(tx.get_id(), inputs, tx.get_vout());
    assert_eq!(chain.verify_transaction(&tampered), Ok(false));
}

#[test]
fn update_after_block_matches_full_reindex() {
    let a = fresh_wallet();
    let b = fresh_wallet();
    let mut chain = Blockchain::create_blockchain(&a.get_address(), b"origin".to_vec())
        .expect("create");
    let mut at_parent = UtxoSet::new();
    at_parent.reindex(&chain);

    let tx = new_utxo_transaction(&a, &b.get_address(), 4, &at_parent, &chain).expect("payment");
    let cb = new_coinbase_tx(&a.get_address(), Vec::new()).expect("coinbase");
    let block = chain.mine_block(vec![cb, tx]).expect("mine");

    let mut incremental = at_parent;
    incremental.update(&block).expect("update");
    let mut full = UtxoSet::new();
    full.reindex(&chain);

    assert_eq!(incremental.count_transactions(), full.count_transactions());
    let pkh_a = hash_pub_key(&a.get_public_key());
    let pkh_b = hash_pub_key(&b.get_public_key());
    assert_eq!(balance_of(&incremental, &pkh_a), balance_of(&full, &pkh_a));
    assert_eq!(balance_of(&incremental, &pkh_b), balance_of(&full, &pkh_b));
}

#[test]
fn add_block_is_idempotent_and_rejects_junk() {
    let a = fresh_wallet();
    let mut chain = Blockchain::create_blockchain(&a.get_address(), Vec::new()).expect("create");
    let genesis = chain.blocks_tip_first().remove(0);

    let mut follower =
        Blockchain::from_parts(vec![genesis.duplicate()], genesis.get_hash()).expect("open");
    let cb = new_coinbase_tx(&a.get_address(), Vec::new()).expect("coinbase");
    let mined = chain.mine_block(vec![cb]).expect("mine");

    assert_eq!(follower.add_block(mined.duplicate()), Ok(()));
    assert_eq!(follower.get_best_height(), 1);
    assert_eq!(follower.add_block(mined.duplicate()), Ok(()));
    assert_eq!(follower.get_best_height(), 1);

    let junk = Block::from_parts(0, vec![new_coinbase_tx(&a.get_address(), Vec::new()).unwrap()],
        mined.get_hash(), vec![0u8; 32], 0, 2);
    assert_eq!(follower.add_block(junk), Err(ChainError::Malformed));
}

#[test]
fn find_transaction_reports_missing_ids() {
    let a = fresh_wallet();
    let chain = Blockchain::create_blockchain(&a.get_address(), Vec::new()).expect("create");
    let missing = chain.find_transaction(&vec![9u8; 32]);
    assert!(matches!(missing, Err(ChainError::NotFound)));
}

#[test]
fn wallet_collection_stores_and_lists() {
    let mut wallets = new_wallets();
    let address = wallets.create_wallet().expect("create wallet");
    assert!(validate_address(&address));
    let listed = wallets.get_addresses();
    assert_eq!(listed.len(), 1);
    assert_eq!(listed[0], address);
    let found = wallets.get_wallet(&address).expect("stored wallet");
    assert_eq!(found.get_address(), address);
    assert!(wallets.get_wallet(&b"unknown".to_vec()).is_none());
}

#[test]
fn transaction_serialization_round_trips() {
    let a = fresh_wallet();
    let cb = new_coinbase_tx(&a.get_address(), b"codec".to_vec()).expect("coinbase");
    let encoded = serialize_transaction(&cb);
    let (decoded, end) = utxo_chain::codec::parse_tx(&encoded, 0).expect("parse");
    assert_eq!(end, encoded.len());
    assert_eq!(serialize_transaction(&decoded), encoded);
    assert_eq!(decoded.get_id(), cb.get_id());
}

#[test]
fn block_serialization_round_trips() {
    let a = fresh_wallet();
    let chain = Blockchain::create_blockchain(&a.get_address(), Vec::new()).expect("create");
    let genesis = chain.blocks_tip_first().remove(0);
    let encoded = genesis.serialize();
    let decoded = utxo_chain::codec::deserialize_block(&encoded).expect("parse");
    assert_eq!(decoded.serialize(), encoded);
    assert_eq!(decoded.get_hash(), genesis.get_hash());
    assert_eq!(decoded.get_height(), genesis.get_height());
}

#[test]
fn spendable_outputs_stop_at_the_requested_amount() {
    let a = fresh_wallet();
    let chain = Blockchain::create_blockchain(&a.get_address(), Vec::new()).expect("create");
    let mut utxo = UtxoSet::new();
    utxo.reindex(&chain);
    let pkh = hash_pub_key(&a.get_public_key());
    let (acc, selected) = utxo.find_spendable_outputs(&pkh, 4);
    assert_eq!(acc, 10);
    assert_eq!(selected.len(), 1);
    assert_eq!(selected[0].1, vec![0usize]);
    let (acc, selected) = utxo.find_spendable_outputs(&pkh, 11);
    assert_eq!(acc, 10);
    assert_eq!(selected.len(), 1);
    let other = hash_pub_key(&b"someone else".to_vec());
    let (acc, selected) = utxo.find_spendable_outputs(&other, 4);
    assert_eq!(acc, 0);
    assert!(selected.is_empty());
}
