use minichain::block::Block;
use minichain::chain::{Blockchain, ChainError, UTXOSet};
use minichain::cli::{cmd_create_blockchain, cmd_get_balance, cmd_reindex, cmd_send, Cli, CliError, Commands, SendOutcome};
use minichain::server::{Message, Node};
use minichain::spend::{verify_transaction, TxError};
use minichain::transaction::{Transaction, SUBSIDY};
use minichain::wallets::{hash_pub_key, Wallet, Wallets};

fn key_hash(w: &Wallet) -> Vec<u8> {
    let mut p = w.public_key.clone();
    hash_pub_key(&mut p);
    p
}

fn chain_for(w: &Wallet) -> UTXOSet {
    UTXOSet::new(Blockchain::create_blockchain(&key_hash(w), 1).unwrap())
}

#[test]
fn genesis_pays_the_reward() {
    let a = Wallet::new().unwrap();
    let set = chain_for(&a);
    assert_eq!(set.get_best_height(), 0);
    assert_eq!(set.get_balance(&key_hash(&a)), SUBSIDY as u128);
    assert_eq!(set.count_transactions(), 1);
    let genesis = &set.blockchain.blocks[0];
    assert!(genesis.validate());
    assert!(genesis.transactions[0].is_coinbase());
    assert_eq!(genesis.transactions[0].hash(), genesis.transactions[0].id);
}

#[test]
fn send_four_of_ten_then_mine() {
    let a = Wallet::new().unwrap();
    let b = Wallet::new().unwrap();
    let miner = Wallet::new().unwrap();
    let mut set = chain_for(&a);
    let tx = Transaction::new_utxo(&a, &b.get_address(), 4, &set.utxos).unwrap();
    assert!(verify_transaction(&tx, &set.utxos));
    let cb = Transaction::new_coinbase(&key_hash(&miner), b"reward!");
    set.mine_block(vec![cb, tx], 2).unwrap();
    assert_eq!(set.get_balance(&key_hash(&a)), 6);
    assert_eq!(set.get_balance(&key_hash(&b)), 4);
    assert_eq!(set.count_transactions(), 2);
    assert_eq!(set.get_best_height(), 1);
}

#[test]
fn insufficient_funds_leaves_index_alone() {
    let a = Wallet::new().unwrap();
    let b = Wallet::new().unwrap();
    let set = chain_for(&a);
    let before = set.utxos.clone();
    let r = Transaction::new_utxo(&a, &b.get_address(), 100, &set.utxos);
    assert!(matches!(r, Err(TxError::InsufficientFunds)));
    assert_eq!(set.utxos, before);
}

#[test]
fn bad_address_is_rejected() {
    let a = Wallet::new().unwrap();
    let set = chain_for(&a);
    let r = Transaction::new_utxo(&a, "not an address", 1, &set.utxos);
    assert!(matches!(r, Err(TxError::InvalidAddress)));
}

#[test]
fn mined_block_validates_and_tampering_breaks_it() {
    let a = Wallet::new().unwrap();
    let set = chain_for(&a);
    let mut block = set.blockchain.blocks[0].clone();
    assert!(block.validate());
    assert_eq!(&block.hash[..2], &[0u8, 0]);
    block.nonce += 1;
    assert!(!block.validate());
    let mut block2 = set.blockchain.blocks[0].clone();
    block2.timestamp += 1;
    assert!(!block2.validate());
}

#[test]
fn double_spend_is_rejected() {
    let a = Wallet::new().unwrap();
    let b = Wallet::new().unwrap();
    let miner = Wallet::new().unwrap();
    let mut set = chain_for(&a);
    let tx = Transaction::new_utxo(&a, &b.get_address(), 10, &set.utxos).unwrap();
    let again = tx.clone();
    let cb = Transaction::new_coinbase(&key_hash(&miner), b"one");
    set.mine_block(vec![cb, tx], 2).unwrap();
    assert!(!verify_transaction(&again, &set.utxos));
    let cb2 = Transaction::new_coinbase(&key_hash(&miner), b"two");
    let r = set.mine_block(vec![cb2, again], 3);
    assert!(matches!(r, Err(ChainError::InvalidTransaction)));
    assert_eq!(set.get_best_height(), 1);
}

#[test]
fn outputs_above_inputs_are_rejected() {
    let a = Wallet::new().unwrap();
    let b = Wallet::new().unwrap();
    let set = chain_for(&a);
    let mut tx = Transaction::new_utxo(&a, &b.get_address(), 4, &set.utxos).unwrap();
    tx.vout[0].value = 40;
    tx.id = tx.hash();
    assert!(!verify_transaction(&tx, &set.utxos));
}

#[test]
fn reindex_matches_incremental_updates() {
    let a = Wallet::new().unwrap();
    let b = Wallet::new().unwrap();
    let mut set = chain_for(&a);
    let tx = Transaction::new_utxo(&a, &b.get_address(), 3, &set.utxos).unwrap();
    let cb = Transaction::new_coinbase(&key_hash(&b), b"x");
    set.mine_block(vec![cb, tx], 2).unwrap();
    let incremental = set.utxos.clone();
    let count = cmd_reindex(&mut set);
    assert_eq!(set.utxos, incremental);
    assert_eq!(count, 2);
    let bal_a = cmd_get_balance(&set, &a.get_address()).ok().unwrap();
    assert_eq!(bal_a, 7);
}

#[test]
fn block_with_wrong_link_is_rejected() {
    let a = Wallet::new().unwrap();
    let mut set = chain_for(&a);
    let cb = Transaction::new_coinbase(&key_hash(&a), b"y");
    let block = Block::new_block(vec![cb], vec![1, 2, 3], 1, 5).unwrap();
    let r = set.add_block(block);
    assert!(matches!(r, Err(ChainError::InvalidBlock)));
    assert_eq!(set.blockchain.blocks.len(), 1);
}

#[test]
fn two_nodes_sync() {
    let a = Wallet::new().unwrap();
    let base = chain_for(&a);
    let mut node1 = Node::new(UTXOSet::new(Blockchain { blocks: base.blockchain.blocks.clone() }));
    let mut node2 = Node::new(UTXOSet::new(Blockchain { blocks: base.blockchain.blocks.clone() }));
    for t in 0..3u64 {
        node1.mine_pending(&key_hash(&a), 10 + t).unwrap();
    }
    assert_eq!(node1.utxo_set.get_best_height(), 3);

    let mut inbox1 = vec![node2.version()];
    let mut inbox2: Vec<Message> = Vec::new();
    for _ in 0..50 {
        let mut next1 = Vec::new();
        let mut next2 = Vec::new();
        for m in inbox1.drain(..) {
            next2.extend(node1.handle(m).unwrap());
        }
        for m in inbox2.drain(..) {
            next1.extend(node2.handle(m).unwrap());
        }
        inbox1 = next1;
        inbox2 = next2;
        if inbox1.is_empty() && inbox2.is_empty() {
            break;
        }
    }
    assert_eq!(node2.utxo_set.get_best_height(), node1.utxo_set.get_best_height());
    assert_eq!(node2.utxo_set.utxos, node1.utxo_set.utxos);
}

#[test]
fn relay_puts_transaction_in_mempool_and_miner_clears_it() {
    let a = Wallet::new().unwrap();
    let b = Wallet::new().unwrap();
    let mut ws = Wallets::new();
    ws.insert(a.get_address(), a.clone());
    let mut set = chain_for(&a);
    let out = cmd_send(&mut set, &ws, &a.get_address(), &b.get_address(), 5, false, &key_hash(&a), 2);
    let msg = match out {
        Ok(SendOutcome::Relay(m)) => m,
        _ => panic!("expected a relay message"),
    };
    let mut node = Node::new(set);
    assert!(node.handle(msg).unwrap().is_empty());
    assert_eq!(node.mempool.len(), 1);
    let announce = node.mine_pending(&key_hash(&b), 3).unwrap();
    assert!(node.mempool.is_empty());
    assert!(matches!(announce, Message::Inv { ref hashes } if hashes.len() == 1));
    assert_eq!(node.utxo_set.get_balance(&key_hash(&b)), 15);
    assert_eq!(node.utxo_set.get_balance(&key_hash(&a)), 5);
}

#[test]
fn send_from_unknown_wallet_fails() {
    let a = Wallet::new().unwrap();
    let ws = Wallets::new();
    let mut set = chain_for(&a);
    let r = cmd_send(&mut set, &ws, &a.get_address(), &a.get_address(), 1, true, &key_hash(&a), 2);
    assert!(r.is_err());
    assert!(matches!(Cli::new().command, Commands::PrintChain));
}

#[test]
fn cmd_send_four_of_ten_mined_for_a_third_party() {
    let a = Wallet::new().unwrap();
    let b = Wallet::new().unwrap();
    let c = Wallet::new().unwrap();
    let mut ws = Wallets::new();
    ws.insert(a.get_address(), a.clone());
    let mut set = cmd_create_blockchain(&a.get_address(), 1).ok().unwrap();
    assert_eq!(cmd_get_balance(&set, &a.get_address()).ok().unwrap(), 10);
    let out = cmd_send(&mut set, &ws, &a.get_address(), &b.get_address(), 4, true, &key_hash(&c), 2);
    assert!(matches!(out, Ok(SendOutcome::Mined(_))));
    assert_eq!(cmd_get_balance(&set, &a.get_address()).ok().unwrap(), 6);
    assert_eq!(cmd_get_balance(&set, &b.get_address()).ok().unwrap(), 4);
    assert_eq!(cmd_reindex(&mut set), 2);
}

#[test]
fn cmd_send_beyond_balance_is_insufficient() {
    let a = Wallet::new().unwrap();
    let b = Wallet::new().unwrap();
    let mut ws = Wallets::new();
    ws.insert(a.get_address(), a.clone());
    let mut set = cmd_create_blockchain(&a.get_address(), 1).ok().unwrap();
    let before = set.utxos.clone();
    for mine in [true, false] {
        let out = cmd_send(&mut set, &ws, &a.get_address(), &b.get_address(), 100, mine, &key_hash(&a), 2);
        assert!(matches!(out, Err(CliError::Transaction(TxError::InsufficientFunds))));
        assert_eq!(set.utxos, before);
        assert_eq!(set.get_best_height(), 0);
    }
}

#[test]
fn relayed_double_spend_is_rejected() {
    let a = Wallet::new().unwrap();
    let b = Wallet::new().unwrap();
    let miner = Wallet::new().unwrap();
    let mut set = chain_for(&a);
    let tx = Transaction::new_utxo(&a, &b.get_address(), 10, &set.utxos).unwrap();
    let again = tx.clone();
    let cb = Transaction::new_coinbase(&key_hash(&miner), b"one");
    set.mine_block(vec![cb, tx], 2).unwrap();
    let mut node = Node::new(set);
    let r = node.handle(Message::Tx { tx: again });
    assert!(matches!(r, Err(ChainError::InvalidTransaction)));
    assert!(node.mempool.is_empty());
    let coinbase = Transaction::new_coinbase(&key_hash(&a), b"free");
    assert!(node.handle(Message::Tx { tx: coinbase }).is_err());
}

#[test]
fn miner_coinbases_differ_by_height() {
    let a = Wallet::new().unwrap();
    let mut node = Node::new(chain_for(&a));
    node.mine_pending(&key_hash(&a), 2).unwrap();
    node.mine_pending(&key_hash(&a), 3).unwrap();
    let blocks = &node.utxo_set.blockchain.blocks;
    assert_ne!(blocks[1].transactions[0].id, blocks[2].transactions[0].id);
    assert_eq!(node.utxo_set.get_balance(&key_hash(&a)), 3 * SUBSIDY as u128);
    assert_eq!(node.utxo_set.count_transactions(), 3);
}

#[test]
fn non_ascii_address_is_invalid() {
    let a = Wallet::new().unwrap();
    let set = chain_for(&a);
    assert!(matches!(cmd_get_balance(&set, "\u{c0}bc"), Err(CliError::InvalidAddress)));
    assert!(matches!(cmd_get_balance(&set, "bitcoincash:qqqqqqqq"), Err(CliError::InvalidAddress)));
    assert!(matches!(cmd_create_blockchain("x", 1), Err(CliError::InvalidAddress)));
}

#[test]
fn mempool_refuses_duplicates_and_conflicts() {
    let a = Wallet::new().unwrap();
    let b = Wallet::new().unwrap();
    let c = Wallet::new().unwrap();
    let set = chain_for(&a);
    let tx = Transaction::new_utxo(&a, &b.get_address(), 4, &set.utxos).unwrap();
    let conflict = Transaction::new_utxo(&a, &c.get_address(), 5, &set.utxos).unwrap();
    let mut node = Node::new(set);
    assert!(node.handle(Message::Tx { tx: tx.clone() }).is_ok());
    assert!(matches!(node.handle(Message::Tx { tx }), Err(ChainError::InvalidTransaction)));
    assert!(matches!(node.handle(Message::Tx { tx: conflict }), Err(ChainError::InvalidTransaction)));
    assert_eq!(node.mempool.len(), 1);
    node.mine_pending(&key_hash(&c), 3).unwrap();
    assert_eq!(node.utxo_set.get_balance(&key_hash(&b)), 4);
    assert_eq!(node.utxo_set.get_balance(&key_hash(&a)), 6);
}
