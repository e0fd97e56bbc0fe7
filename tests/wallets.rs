use bitcoincash_addr::Address;
use ed25519_dalek::{Signer, SigningKey, Verifier, VerifyingKey};
use minichain::wallets::{hash_pub_key, Wallet, Wallets};

#[test]
fn test_create_wallet_and_hash() {
    let w1 = Wallet::new().unwrap();
    let w2 = Wallet::new().unwrap();
    assert_ne!(w1, w2);
    assert_ne!(w1.get_address(), w2.get_address());

    let mut p2 = w2.public_key.clone();
    hash_pub_key(&mut p2);
    assert_eq!(p2.len(), 20);
    let pub_key_hash = Address::decode(&w2.get_address()).unwrap().body;
    assert_eq!(pub_key_hash, p2);
}

#[test]
fn test_wallets() {
    let mut ws = Wallets::new();
    let wa1 = ws.create_wallet().unwrap();
    let w1 = ws.get_wallet(&wa1).unwrap().clone();

    let mut stored: Vec<(Vec<u8>, Vec<u8>)> = Vec::new();
    for (address, wallet) in ws.wallets.iter() {
        let data = bincode::encode_to_vec(
            (wallet.secret_key.clone(), wallet.public_key.clone()),
            bincode::config::standard(),
        )
        .unwrap();
        stored.push((address.as_bytes().to_vec(), data));
    }

    let mut ws2 = Wallets::new();
    for (key, value) in stored {
        let ((secret_key, public_key), _): ((Vec<u8>, Vec<u8>), usize) =
            bincode::decode_from_slice(&value, bincode::config::standard()).unwrap();
        ws2.insert(String::from_utf8(key.to_vec()).unwrap(), Wallet { secret_key, public_key });
    }
    let w2 = ws2.get_wallet(&wa1).unwrap();
    assert_eq!(&w1, w2);
}

#[test]
#[should_panic]
fn test_wallets_not_exist() {
    let w3 = Wallet::new().unwrap();
    let ws2 = Wallets::new();
    ws2.get_wallet(&w3.get_address()).unwrap();
}

#[test]
fn test_signature() {
    let w = Wallet::new().unwrap();
    let keypair = SigningKey::from_bytes(&w.secret_key.try_into().unwrap());
    let signature = keypair.sign("test".as_bytes());
    let verifying_key = VerifyingKey::from_bytes(&w.public_key.try_into().unwrap()).unwrap();
    assert!(verifying_key.verify("test".as_bytes(), &signature).is_ok());
}

#[test]
fn hash_pub_key_is_hash160_of_the_key() {
    let mut key = vec![1u8, 2, 3];
    hash_pub_key(&mut key);
    assert_eq!(key.len(), 20);
    assert_ne!(key[..3], [1u8, 2, 3]);
}

#[test]
fn all_addresses_listed_once() {
    let mut ws = Wallets::new();
    let a = ws.create_wallet().unwrap();
    let b = ws.create_wallet().unwrap();
    let all = ws.get_all_addresses();
    assert_eq!(all.len(), 2);
    assert!(all.contains(&a) && all.contains(&b));
    let w = ws.get_wallet(&a).unwrap().clone();
    ws.insert(a.clone(), w);
    assert_eq!(ws.get_all_addresses().len(), 2);
}
