use minichain::chain::{Blockchain, UTXOSet};
use minichain::transaction::Transaction;
use minichain::wallets::{hash_pub_key, Wallet};

fn key_hash(w: &Wallet) -> Vec<u8> {
    let mut p = w.public_key.clone();
    hash_pub_key(&mut p);
    p
}

#[test]
fn transaction_round_trip_keeps_id() {
    let a = Wallet::new().unwrap();
    let b = Wallet::new().unwrap();
    let set = UTXOSet::new(Blockchain::create_blockchain(&key_hash(&a), 1).unwrap());
    let tx = Transaction::new_utxo(&a, &b.get_address(), 3, &set.utxos).unwrap();
    let bytes = tx.serialize();
    let back = Transaction::deserialize(&bytes).unwrap();
    assert_eq!(back, tx);
    assert_eq!(back.hash(), tx.hash());
    assert_eq!(back.id, tx.hash());
}

#[test]
fn coinbase_round_trip() {
    let cb = Transaction::new_coinbase(&[7u8; 20], b"data");
    let back = Transaction::deserialize(&cb.serialize()).unwrap();
    assert_eq!(back, cb);
    assert!(back.is_coinbase());
}

#[test]
fn malformed_bytes_are_rejected() {
    let cb = Transaction::new_coinbase(&[7u8; 20], b"data");
    let bytes = cb.serialize();
    assert!(Transaction::deserialize(&bytes[..bytes.len() - 1]).is_none());
    let mut longer = bytes.clone();
    longer.push(0);
    assert!(Transaction::deserialize(&longer).is_none());
    assert!(Transaction::deserialize(&[]).is_none());
    assert!(Transaction::deserialize(&[255u8; 16]).is_none());
}

#[test]
fn serialized_layout_is_length_framed() {
    let cb = Transaction::new_coinbase(&[1u8, 2], b"");
    let bytes = cb.serialize();
    assert_eq!(&bytes[..8], &[32u8, 0, 0, 0, 0, 0, 0, 0]);
    assert_eq!(&bytes[40..48], &[1u8, 0, 0, 0, 0, 0, 0, 0]);
}

#[test]
fn block_round_trip_keeps_hash() {
    let a = Wallet::new().unwrap();
    let set = UTXOSet::new(Blockchain::create_blockchain(&key_hash(&a), 1).unwrap());
    let block = &set.blockchain.blocks[0];
    let back = minichain::block::Block::deserialize(&block.serialize()).unwrap();
    assert_eq!(&back, block);
    assert!(back.validate());
    let mut bytes = block.serialize();
    bytes.pop();
    assert!(minichain::block::Block::deserialize(&bytes).is_none());
}

#[test]
fn tampered_block_bytes_fail_validation() {
    let a = Wallet::new().unwrap();
    let set = UTXOSet::new(Blockchain::create_blockchain(&key_hash(&a), 1).unwrap());
    let bytes = set.blockchain.blocks[0].serialize();
    let mut changed = bytes.clone();
    changed[0] ^= 1;
    let back = minichain::block::Block::deserialize(&changed).unwrap();
    assert!(!back.validate());
}
