//! Tests of the gossip layer: the wire codec and the handlers'
//! decisions on height reconciliation, block pulling and relaying.

use utxo_chain::chain::Blockchain;
use utxo_chain::node::decode_message;
use utxo_chain::node::encode_message;
use utxo_chain::node::bytes_to_command;
use utxo_chain::node::command_to_bytes;
use utxo_chain::node::InvKind;
use utxo_chain::node::Message;
use utxo_chain::node::Node;
use utxo_chain::transaction::new_coinbase_tx;
use utxo_chain::transaction::serialize_transaction;
use utxo_chain::utxo::UtxoSet;
use utxo_chain::wallet::Wallet;

fn seed_addr() -> Vec<u8> {
    b"127.0.0.1:3000".to_vec()
}

fn make_node(own: &[u8], miner: &[u8]) -> (Node, Wallet) {
    let w = Wallet::new_wallet().expect("key generation");
    let chain = Blockchain::create_blockchain(&w.get_address(), Vec::new()).expect("create");
    let mut utxo = UtxoSet::new();
    utxo.reindex(&chain);
    let node = Node::new_node(own.to_vec(), miner.to_vec(), seed_addr(), chain, utxo);
    (node, w)
}

#[test]
fn command_field_round_trips() {
    let cmd = b"version".to_vec();
    let padded = command_to_bytes(&cmd);
    assert_eq!(padded.len(), 12);
    assert_eq!(bytes_to_command(&padded), cmd);
}

#[test]
fn version_message_round_trips() {
    let m = Message::Version { version: 1, best_height: 42, addr_from: b"127.0.0.1:4000".to_vec() };
    let bytes = encode_message(&m);
    match decode_message(&bytes) {
        Some(Message::Version { version, best_height, addr_from }) => {
            assert_eq!(version, 1);
            assert_eq!(best_height, 42);
            assert_eq!(addr_from, b"127.0.0.1:4000".to_vec());
        },
        _ => panic!("wrong decode"),
    }
}

#[test]
fn inv_message_round_trips() {
    let m = Message::Inv {
        addr_from: b"a".to_vec(),
        kind: InvKind::Blocks,
        items: vec![vec![1u8, 2, 3], vec![4u8]],
    };
    let bytes = encode_message(&m);
    match decode_message(&bytes) {
        Some(Message::Inv { addr_from, kind, items }) => {
            assert_eq!(addr_from, b"a".to_vec());
            assert_eq!(kind, InvKind::Blocks);
            assert_eq!(items, vec![vec![1u8, 2, 3], vec![4u8]]);
        },
        _ => panic!("wrong decode"),
    }
}

#[test]
fn tx_and_block_messages_round_trip() {
    let w = Wallet::new_wallet().expect("key generation");
    let chain = Blockchain::create_blockchain(&w.get_address(), Vec::new()).expect("create");
    let genesis = chain.blocks_tip_first().remove(0);
    let cb = new_coinbase_tx(&w.get_address(), b"wire".to_vec()).expect("coinbase");

    let tm = Message::TxMsg { addr_from: b"x".to_vec(), transaction: cb.duplicate() };
    match decode_message(&encode_message(&tm)) {
        Some(Message::TxMsg { transaction, .. }) => {
            assert_eq!(serialize_transaction(&transaction), serialize_transaction(&cb));
        },
        _ => panic!("wrong decode"),
    }

    let bm = Message::BlockMsg { addr_from: b"x".to_vec(), block: genesis.duplicate() };
    match decode_message(&encode_message(&bm)) {
        Some(Message::BlockMsg { block, .. }) => {
            assert_eq!(block.serialize(), genesis.serialize());
        },
        _ => panic!("wrong decode"),
    }
}

#[test]
fn garbage_does_not_decode() {
    assert!(decode_message(&b"short".to_vec()).is_none());
    assert!(decode_message(&vec![0u8; 64]).is_none());
}

#[test]
fn version_handler_reconciles_heights() {
    let (mut node, _) = make_node(b"127.0.0.1:4000", b"");
    // The peer is taller: ask it for its blocks.
    let out = node.handle_version(1, 5, b"127.0.0.1:3000".to_vec());
    assert_eq!(out.len(), 1);
    assert_eq!(out[0].0, b"127.0.0.1:3000".to_vec());
    assert!(matches!(out[0].1, Message::GetBlocks { .. }));
    // The peer is shorter: announce our height back.
    let out = node.handle_version(1, 0, b"127.0.0.1:5000".to_vec());
    assert_eq!(out.len(), 0);
    let out = node.handle_version(1, 0, b"127.0.0.1:6000".to_vec());
    assert_eq!(out.len(), 0);
}

#[test]
fn get_blocks_handler_answers_with_inventory() {
    let (node, _) = make_node(b"127.0.0.1:4000", b"");
    let out = node.handle_get_blocks(b"127.0.0.1:3000".to_vec());
    assert_eq!(out.len(), 1);
    match &out[0].1 {
        Message::Inv { kind, items, .. } => {
            assert_eq!(*kind, InvKind::Blocks);
            assert_eq!(items.len(), 1);
        },
        _ => panic!("expected inventory"),
    }
}

#[test]
fn inv_handler_requests_deepest_block_and_queues_rest() {
    let (mut node, _) = make_node(b"127.0.0.1:4000", b"");
    let h1 = vec![1u8; 32];
    let h2 = vec![2u8; 32];
    // The advertisement lists the tip first, so the deepest block is
    // the last item and gets requested first.
    let out = node.handle_inv(
        b"127.0.0.1:3000".to_vec(),
        InvKind::Blocks,
        vec![h1.clone(), h2.clone()],
    );
    assert_eq!(out.len(), 1);
    match &out[0].1 {
        Message::GetData { kind, id, .. } => {
            assert_eq!(*kind, InvKind::Blocks);
            assert_eq!(*id, h2);
        },
        _ => panic!("expected data request"),
    }
}

#[test]
fn follower_pulls_missing_blocks_and_catches_up() {
    // One node grows a chain to height two; a follower that shares
    // only the genesis block reconciles through the gossip handlers.
    let w = Wallet::new_wallet().expect("key generation");
    let mut grown = Blockchain::create_blockchain(&w.get_address(), b"shared".to_vec())
        .expect("create");
    let genesis = grown.blocks_tip_first().remove(0);
    for filler in [b"one".to_vec(), b"two".to_vec()] {
        let cb = new_coinbase_tx(&w.get_address(), filler).expect("coinbase");
        grown.mine_block(vec![cb]).expect("mine");
    }
    let mut utxo_full = UtxoSet::new();
    utxo_full.reindex(&grown);
    let mut tall = Node::new_node(
        b"127.0.0.1:3000".to_vec(),
        Vec::new(),
        seed_addr(),
        grown,
        utxo_full,
    );
    let follower_chain =
        Blockchain::from_parts(vec![genesis.duplicate()], genesis.get_hash()).expect("open");
    let mut utxo = UtxoSet::new();
    utxo.reindex(&follower_chain);
    let mut follower = Node::new_node(
        b"127.0.0.1:4000".to_vec(),
        Vec::new(),
        seed_addr(),
        follower_chain,
        utxo,
    );

    // version -> getblocks -> inv -> repeated getdata/block.
    let mut wire = follower.handle_version(1, 2, b"127.0.0.1:3000".to_vec());
    loop {
        let mut next = Vec::new();
        for (target, message) in wire {
            if target == b"127.0.0.1:3000".to_vec() {
                match message {
                    Message::GetBlocks { addr_from } => {
                        next.extend(tall.handle_get_blocks(addr_from));
                    },
                    Message::GetData { addr_from, kind, id } => {
                        next.extend(tall.handle_get_data(addr_from, kind, &id));
                    },
                    _ => panic!("unexpected message to the tall node"),
                }
            } else {
                match message {
                    Message::Inv { addr_from, kind, items } => {
                        next.extend(follower.handle_inv(addr_from, kind, items));
                    },
                    Message::BlockMsg { addr_from, block } => {
                        next.extend(
                            follower.handle_block(addr_from, block).expect("admit block"),
                        );
                    },
                    _ => panic!("unexpected message to the follower"),
                }
            }
        }
        if next.is_empty() {
            break;
        }
        wire = next;
    }
    assert_eq!(follower.chain_ref().get_best_height(), 2);
    assert_eq!(
        follower.utxo_ref().count_transactions(),
        tall.utxo_ref().count_transactions()
    );
}

#[test]
fn block_handler_pulls_and_reindexes() {
    let (mut follower, w) = make_node(b"127.0.0.1:4000", b"");
    let mut chain = Blockchain::create_blockchain(&w.get_address(), b"other".to_vec())
        .expect("create");
    let cb = new_coinbase_tx(&w.get_address(), Vec::new()).expect("coinbase");
    let mined = chain.mine_block(vec![cb]).expect("mine");
    // The follower's chain has a different genesis, so the block's
    // parent is unknown to it and the block is rejected.
    let r = follower.handle_block(b"127.0.0.1:3000".to_vec(), mined);
    assert!(r.is_err());
}

#[test]
fn seed_relays_transactions_to_other_peers() {
    let (mut seed, w) = make_node(b"127.0.0.1:3000", b"");
    seed.handle_version(1, 0, b"127.0.0.1:4000".to_vec());
    seed.handle_version(1, 0, b"127.0.0.1:5000".to_vec());
    let cb = new_coinbase_tx(&w.get_address(), b"relay".to_vec()).expect("coinbase");
    let out = seed
        .handle_tx(b"127.0.0.1:4000".to_vec(), cb)
        .expect("relay");
    // Everyone but the seed itself and the sender gets the inventory.
    assert_eq!(out.len(), 1);
    assert_eq!(out[0].0, b"127.0.0.1:5000".to_vec());
    assert!(matches!(out[0].1, Message::Inv { kind: InvKind::Txs, .. }));
}

#[test]
fn miner_assembles_block_when_mempool_fills() {
    let a = Wallet::new_wallet().expect("key generation");
    let b = Wallet::new_wallet().expect("key generation");
    let chain = Blockchain::create_blockchain(&a.get_address(), Vec::new()).expect("create");
    let mut utxo = UtxoSet::new();
    utxo.reindex(&chain);
    let tx = utxo_chain::transaction::new_utxo_transaction(&a, &b.get_address(), 4, &utxo, &chain)
        .expect("payment");
    let miner_reward = Wallet::new_wallet().expect("key generation");
    let mut miner = Node::new_node(
        b"127.0.0.1:4000".to_vec(),
        miner_reward.get_address(),
        seed_addr(),
        chain,
        utxo,
    );
    let cb_filler = new_coinbase_tx(&a.get_address(), b"filler".to_vec()).expect("coinbase");
    let out = miner
        .handle_tx(b"127.0.0.1:3000".to_vec(), tx)
        .expect("first transaction");
    assert_eq!(out.len(), 0, "one transaction does not trigger mining");
    let out = miner
        .handle_tx(b"127.0.0.1:3000".to_vec(), cb_filler)
        .expect("second transaction");
    // The mempool reached two, so a block was mined and advertised to
    // the seed peer.
    assert_eq!(miner.chain_ref().get_best_height(), 1);
    assert!(out.len() >= 1);
    assert!(matches!(out[0].1, Message::Inv { kind: InvKind::Blocks, .. }));
}

#[test]
fn get_data_serves_blocks_and_mempool_transactions() {
    let (mut node, w) = make_node(b"127.0.0.1:4000", b"");
    let tip = node.chain_ref().blocks_tip_first().remove(0);
    let out = node.handle_get_data(b"peer".to_vec(), InvKind::Blocks, &tip.get_hash());
    assert_eq!(out.len(), 1);
    assert!(matches!(out[0].1, Message::BlockMsg { .. }));
    let out = node.handle_get_data(b"peer".to_vec(), InvKind::Blocks, &vec![7u8; 32]);
    assert_eq!(out.len(), 0);

    let cb = new_coinbase_tx(&w.get_address(), b"pool".to_vec()).expect("coinbase");
    let id = cb.get_id();
    // A non-seed node with no mining address only stores the transaction.
    node.handle_tx(b"peer".to_vec(), cb).expect("store");
    let out = node.handle_get_data(b"peer".to_vec(), InvKind::Txs, &id);
    assert_eq!(out.len(), 1);
    assert!(matches!(out[0].1, Message::TxMsg { .. }));
}

#[test]
fn unreachable_peer_is_forgotten_but_never_the_last_one() {
    let (mut node, _) = make_node(b"127.0.0.1:4000", b"");
    node.handle_version(1, 0, b"127.0.0.1:5000".to_vec());
    assert!(node.node_is_known(&seed_addr()));
    node.forget_peer(&seed_addr());
    assert!(!node.node_is_known(&seed_addr()));
    assert!(node.node_is_known(&b"127.0.0.1:5000".to_vec()));
    // Dropping the only remaining peer would leave the node alone, so
    // the list is kept.
    node.forget_peer(&b"127.0.0.1:5000".to_vec());
    assert!(node.node_is_known(&b"127.0.0.1:5000".to_vec()));
}

#[test]
fn miner_with_bad_reward_address_rejects_when_triggered() {
    let (mut miner, w) = make_node(b"127.0.0.1:4000", b"0OIl not base58");
    let tx1 = new_coinbase_tx(&w.get_address(), b"first".to_vec()).expect("coinbase");
    let tx2 = new_coinbase_tx(&w.get_address(), b"second".to_vec()).expect("coinbase");
    miner.handle_tx(b"127.0.0.1:3000".to_vec(), tx1).expect("below threshold");
    let r = miner.handle_tx(b"127.0.0.1:3000".to_vec(), tx2);
    assert!(matches!(r, Err(utxo_chain::ChainError::InvalidAddress)));
}
