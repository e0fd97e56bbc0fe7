use crate::hashing::{ripemd160, ripemd160_of, sha256, sha256_of};
use crate::keys::{ed25519_public_of, public_key_of, random_secret};
use bitcoincash_addr::{Address, AddressCodec, Base58Codec, HashType, Scheme};
use vstd::utf8::is_ascii_chars;
use vstd::prelude::*;

verus! {

/// The base58 text of an address (script hash type, main network) for a key hash.
pub uninterp spec fn base58_address_of(body: Seq<u8>) -> Seq<char>;

/// The body bytes of a base58 address text, where the text is a well-formed address.
pub uninterp spec fn address_body_of(text: Seq<char>) -> Option<Seq<u8>>;

/// Relies on bitcoincash_addr's `Address::encode` with the base58 scheme, which cannot fail:
/// version byte, body and checksum in base58 digits, all ASCII. Its `Base58Codec::decode`
/// reads a 20-byte body back from the 25 bytes.
#[verifier::external_body]
fn encode_address(body: &[u8]) -> (r: String)
    ensures
        r@ == base58_address_of(body@),
        is_ascii_chars(r@),
        body@.len() == 20 ==> address_body_of(r@) == Some(body@),
{
    let address = Address {
        body: body.to_vec(),
        scheme: Scheme::Base58,
        hash_type: HashType::Script,
        ..Default::default()
    };
    address.encode().unwrap()
}

/// Relies on bitcoincash_addr's `Base58Codec::decode`: the body of a well-formed base58
/// address. A byte above 127 would index past its digit table, hence the ASCII requirement.
#[verifier::external_body]
fn decode_base58(text: &str) -> (r: Option<Vec<u8>>)
    requires
        is_ascii_chars(text@),
    ensures
        r is Some <==> address_body_of(text@) is Some,
        r is Some ==> address_body_of(text@) == Some(r->Some_0@),
{
    match Base58Codec::decode(text) {
        Ok(address) => Some(address.body),
        Err(_) => None,
    }
}

/// The key hash that an address text stands for, if it is a well-formed ASCII address.
pub open spec fn decoded(text: Seq<char>) -> Option<Seq<u8>> {
    if is_ascii_chars(text) {
        address_body_of(text)
    } else {
        None
    }
}

/// The key hash that the address text `text` stands for.
pub fn decode_address(text: &str) -> (r: Option<Vec<u8>>)
    ensures
        r is Some <==> decoded(text@) is Some,
        r is Some ==> decoded(text@) == Some(r->Some_0@),
{
    if !text.is_ascii() {
        return None;
    }
    decode_base58(text)
}

/// The 20-byte hash that identifies the holder of a public key.
pub open spec fn pub_key_hash_of(pub_key: Seq<u8>) -> Seq<u8> {
    ripemd160_of(sha256_of(pub_key))
}

/// Replaces a public key by its hash: RIPEMD-160 over SHA-256.
pub fn hash_pub_key(pub_key: &mut Vec<u8>)
    ensures
        final(pub_key)@ == pub_key_hash_of(old(pub_key)@),
        final(pub_key)@.len() == 20,
{
    let first = sha256(pub_key.as_slice());
    let second = ripemd160(first.as_slice());
    *pub_key = second;
}

#[derive(Debug, Clone, PartialEq, Eq)]
pub struct Wallet {
    pub secret_key: Vec<u8>,
    pub public_key: Vec<u8>,
}

impl Wallet {
    /// A fresh key pair from the operating system's random generator.
    /// `None` when the operating system's generator fails.
    pub fn new() -> (r: Option<Wallet>)
        ensures
            r matches Some(w) ==> w.secret_key@.len() == 32 && w.public_key@ == ed25519_public_of(
                w.secret_key@,
            ) && w.public_key@.len() == 32,
    {
        let secret_key = match random_secret() {
            Some(s) => s,
            None => return None,
        };
        let public_key = public_key_of(&secret_key);
        Some(Wallet { secret_key, public_key })
    }

    /// The address text of this wallet: the base58 form of its public key's hash.
    pub fn get_address(&self) -> (r: String)
        ensures
            r@ == base58_address_of(pub_key_hash_of(self.public_key@)),
            is_ascii_chars(r@),
            decoded(r@) == Some(pub_key_hash_of(self.public_key@)),
    {
        let mut pub_hash = crate::transaction::copy_bytes(&self.public_key);
        hash_pub_key(&mut pub_hash);
        encode_address(&pub_hash)
    }

    pub fn copy(&self) -> (r: Wallet)
        ensures
            r.secret_key@ == self.secret_key@,
            r.public_key@ == self.public_key@,
    {
        Wallet {
            secret_key: crate::transaction::copy_bytes(&self.secret_key),
            public_key: crate::transaction::copy_bytes(&self.public_key),
        }
    }
}

/// Key pairs keyed by address, each address at most once.
#[derive(Debug)]
pub struct Wallets {
    pub wallets: Vec<(String, Wallet)>,
}

impl Wallets {
    pub open spec fn wf(&self) -> bool {
        forall|i: int, j: int|
            0 <= i < j < self.wallets@.len() ==> self.wallets@[i].0@ != self.wallets@[j].0@
    }

    /// The wallet stored under `address`, where there is one.
    pub open spec fn wallet_at(&self, address: Seq<char>) -> Wallet {
        self.wallets@[choose|i: int| 0 <= i < self.wallets@.len() && self.wallets@[i].0@ == address].1
    }

    /// Entry `i` holds a well-formed key pair stored under its own address, which decodes
    /// back to the hash of the public key.
    pub open spec fn fresh_at(&self, i: int, address: Seq<char>) -> bool {
        let w = self.wallets@[i].1;
        &&& 0 <= i < self.wallets@.len()
        &&& self.wallets@[i].0@ == address
        &&& w.secret_key@.len() == 32
        &&& w.public_key@ == ed25519_public_of(w.secret_key@)
        &&& address == base58_address_of(pub_key_hash_of(w.public_key@))
        &&& is_ascii_chars(address)
        &&& decoded(address) == Some(pub_key_hash_of(w.public_key@))
    }

    pub open spec fn has(&self, address: Seq<char>) -> bool {
        exists|i: int| 0 <= i < self.wallets@.len() && self.wallets@[i].0@ == address
    }

    /// An empty store.
    pub fn new() -> (r: Wallets)
        ensures
            r.wf(),
            r.wallets@.len() == 0,
    {
        Wallets { wallets: Vec::new() }
    }

    fn index_of(&self, address: &String) -> (r: Option<usize>)
        requires
            self.wf(),
        ensures
            r is None <==> !self.has(address@),
            r is Some ==> r->Some_0 < self.wallets@.len() && self.wallets@[r->Some_0 as int].0@
                == address@,
    {
        let mut i: usize = 0;
        while i < self.wallets.len()
            invariant
                i <= self.wallets@.len(),
                forall|j: int| 0 <= j < i ==> self.wallets@[j].0@ != address@,
            decreases self.wallets@.len() - i,
        {
            if self.wallets[i].0 == *address {
                return Some(i);
            }
            i = i + 1;
        }
        None
    }

    /// Adds `wallet` under `address`, replacing a wallet held there before.
    pub fn insert(&mut self, address: String, wallet: Wallet)
        requires
            old(self).wf(),
        ensures
            final(self).wf(),
            exists|i: int|
                0 <= i < final(self).wallets@.len() && final(self).wallets@[i].0@ == address@
                    && final(self).wallets@[i].1 == wallet,
            forall|a: Seq<char>| a != address@ ==> (final(self).has(a) <==> old(self).has(a)),
            forall|i: int|
                0 <= i < old(self).wallets@.len() && old(self).wallets@[i].0@ != address@
                    ==> final(self).wallets@[i] == old(self).wallets@[i],
    {
        let ghost prev = self.wallets@;
        match self.index_of(&address) {
            Some(i) => {
                self.wallets.set(i, (address, wallet));
                assert forall|a: Seq<char>| a != address@ implies (self.has(a) <==> old(
                    self,
                ).has(a)) by {
                    if old(self).has(a) {
                        let j = choose|j: int| 0 <= j < prev.len() && prev[j].0@ == a;
                        assert(self.wallets@[j].0@ == a);
                    }
                    if self.has(a) {
                        let j = choose|j: int| 0 <= j < self.wallets@.len() && self.wallets@[j].0@ == a;
                        assert(prev[j].0@ == a);
                    }
                }
                assert(self.wallets@[i as int].0@ == address@);
            },
            None => {
                self.wallets.push((address, wallet));
                assert forall|a: Seq<char>| a != address@ implies (self.has(a) <==> old(
                    self,
                ).has(a)) by {
                    if old(self).has(a) {
                        let j = choose|j: int| 0 <= j < prev.len() && prev[j].0@ == a;
                        assert(self.wallets@[j].0@ == a);
                    }
                    if self.has(a) {
                        let j = choose|j: int| 0 <= j < self.wallets@.len() && self.wallets@[j].0@ == a;
                        assert(prev[j].0@ == a);
                    }
                }
                assert(self.wallets@[prev.len() as int].0@ == address@);
            },
        }
    }

    /// Creates a fresh wallet, stores it under its address and returns that address; `None`,
    /// with nothing stored, when the operating system's generator fails.
    pub fn create_wallet(&mut self) -> (r: Option<String>)
        requires
            old(self).wf(),
        ensures
            final(self).wf(),
            r is None ==> *final(self) == *old(self),
            r matches Some(a) ==> exists|i: int| #[trigger] final(self).fresh_at(i, a@),
            r matches Some(a) ==> forall|b: Seq<char>|
                b != a@ ==> (final(self).has(b) <==> old(self).has(b)),
            r matches Some(a) ==> forall|i: int|
                0 <= i < old(self).wallets@.len() && old(self).wallets@[i].0@ != a@
                    ==> final(self).wallets@[i] == old(self).wallets@[i],
    {
        let wallet = match Wallet::new() {
            Some(w) => w,
            None => return None,
        };
        let address = wallet.get_address();
        let result = address.clone();
        let ghost w = wallet;
        self.insert(address, wallet);
        proof {
            let i = choose|i: int|
                0 <= i < self.wallets@.len() && self.wallets@[i].0@ == result@ && self.wallets@[i].1 == w;
            assert(self.fresh_at(i, result@));
            assert(exists|j: int| #[trigger] self.fresh_at(j, result@));
        }
        let r = Some(result);
        assert(r matches Some(a) && a@ == result@);
        r
    }

    /// Every address held, each once.
    pub fn get_all_addresses(&self) -> (r: Vec<String>)
        ensures
            r@.len() == self.wallets@.len(),
            forall|i: int| 0 <= i < r@.len() ==> r@[i]@ == self.wallets@[i].0@,
    {
        let mut addresses: Vec<String> = Vec::new();
        let mut i: usize = 0;
        while i < self.wallets.len()
            invariant
                i <= self.wallets@.len(),
                addresses@.len() == i,
                forall|j: int| 0 <= j < i ==> addresses@[j]@ == self.wallets@[j].0@,
            decreases self.wallets@.len() - i,
        {
            addresses.push(self.wallets[i].0.clone());
            i = i + 1;
        }
        addresses
    }

    /// The wallet stored under `address`, if any.
    pub fn get_wallet(&self, address: &str) -> (r: Option<&Wallet>)
        requires
            self.wf(),
        ensures
            r is None <==> !self.has(address@),
            r is Some ==> exists|i: int|
                0 <= i < self.wallets@.len() && self.wallets@[i].0@ == address@ && *r->Some_0
                    == self.wallets@[i].1,
            r is Some ==> *r->Some_0 == self.wallet_at(address@),
    {
        let key = address.to_owned();
        match self.index_of(&key) {
            Some(i) => {
                proof {
                    let c = choose|c: int| 0 <= c < self.wallets@.len() && self.wallets@[c].0@ == address@;
                    if c != i as int {
                        if c < i as int {
                            assert(self.wallets@[c].0@ != self.wallets@[i as int].0@);
                        } else {
                            assert(self.wallets@[i as int].0@ != self.wallets@[c].0@);
                        }
                    }
                }
                Some(&self.wallets[i].1)
            },
            None => None,
        }
    }
}

} // verus!
