use crate::encoding::{framed, le_bytes, push_framed, push_le};
use crate::hashing::{sha256, sha256_of};
use crate::transaction::{bytes_eq, copy_bytes, enc_tx, txs_view, Transaction, TxModel};
use vstd::prelude::*;

verus! {

/// The number of leading zero bytes a block's hash must have: a difficulty of 16 bits.
pub const TARGET_ZERO_BYTES: usize = 2;

#[derive(Debug, Clone, PartialEq, Eq)]
pub struct Block {
    pub timestamp: u64,
    pub transactions: Vec<Transaction>,
    pub prev_block_hash: Vec<u8>,
    pub hash: Vec<u8>,
    pub nonce: u64,
    pub height: u64,
}

pub struct BlockModel {
    pub timestamp: u64,
    pub transactions: Seq<TxModel>,
    pub prev_block_hash: Seq<u8>,
    pub hash: Seq<u8>,
    pub nonce: u64,
    pub height: u64,
}

impl View for Block {
    type V = BlockModel;

    open spec fn view(&self) -> BlockModel {
        BlockModel {
            timestamp: self.timestamp,
            transactions: txs_view(self.transactions@),
            prev_block_hash: self.prev_block_hash@,
            hash: self.hash@,
            nonce: self.nonce,
            height: self.height,
        }
    }
}

/// The canonical bytes of a list of transactions, each framed by its length.
pub open spec fn enc_tx_list(txs: Seq<TxModel>) -> Seq<u8>
    decreases txs.len(),
{
    if txs.len() == 0 {
        Seq::empty()
    } else {
        enc_tx_list(txs.drop_last()) + framed(enc_tx(txs.last()))
    }
}

/// The bytes hashed in the search for a nonce.
pub open spec fn header_bytes(
    prev: Seq<u8>,
    txs: Seq<TxModel>,
    timestamp: u64,
    height: u64,
    nonce: u64,
) -> Seq<u8> {
    framed(prev) + framed(sha256_of(enc_tx_list(txs))) + le_bytes(timestamp as nat, 8) + le_bytes(
        height as nat,
        8,
    ) + le_bytes(nonce as nat, 8)
}

/// Does a hash fall below the difficulty target?
pub open spec fn meets_target(h: Seq<u8>) -> bool {
    h.len() >= TARGET_ZERO_BYTES && forall|i: int| 0 <= i < TARGET_ZERO_BYTES ==> h[i] == 0
}

pub open spec fn pow_hash(b: BlockModel) -> Seq<u8> {
    sha256_of(header_bytes(b.prev_block_hash, b.transactions, b.timestamp, b.height, b.nonce))
}

/// A block whose stored hash is its recomputed header hash and meets the target.
pub open spec fn pow_valid(b: BlockModel) -> bool {
    b.hash == pow_hash(b) && meets_target(b.hash)
}

fn target_met(h: &[u8]) -> (r: bool)
    ensures
        r == meets_target(h@),
{
    if h.len() < TARGET_ZERO_BYTES {
        return false;
    }
    let mut i: usize = 0;
    while i < TARGET_ZERO_BYTES
        invariant
            i <= TARGET_ZERO_BYTES <= h@.len(),
            forall|j: int| 0 <= j < i ==> h@[j] == 0,
        decreases TARGET_ZERO_BYTES - i,
    {
        if h[i] != 0 {
            return false;
        }
        i = i + 1;
    }
    true
}

/// The header bytes without the nonce.
fn header_prefix(prev: &[u8], txs: &Vec<Transaction>, timestamp: u64, height: u64) -> (r: Vec<u8>)
    ensures
        r@ == framed(prev@) + framed(sha256_of(enc_tx_list(txs_view(txs@)))) + le_bytes(
            timestamp as nat,
            8,
        ) + le_bytes(height as nat, 8),
{
    let ghost ts = txs_view(txs@);
    let mut ids: Vec<u8> = Vec::new();
    let mut i: usize = 0;
    while i < txs.len()
        invariant
            i <= txs@.len(),
            ts == txs_view(txs@),
            ids@ == enc_tx_list(ts.subrange(0, i as int)),
        decreases txs@.len() - i,
    {
        let bytes = txs[i].serialize();
        push_framed(&mut ids, &bytes);
        assert(ts.subrange(0, i + 1).drop_last() == ts.subrange(0, i as int));
        i = i + 1;
    }
    assert(ts.subrange(0, ts.len() as int) == ts);
    let digest = sha256(&ids);
    let mut out: Vec<u8> = Vec::new();
    push_framed(&mut out, prev);
    push_framed(&mut out, &digest);
    push_le(&mut out, timestamp, 8);
    push_le(&mut out, height, 8);
    out
}

fn hash_with_nonce(prefix: &Vec<u8>, nonce: u64) -> (r: Vec<u8>)
    ensures
        r@ == sha256_of(prefix@ + le_bytes(nonce as nat, 8)),
{
    let mut data = copy_bytes(prefix);
    push_le(&mut data, nonce, 8);
    sha256(&data)
}

impl Block {
    pub fn copy(&self) -> (r: Block)
        ensures
            r@ == self@,
    {
        let mut txs: Vec<Transaction> = Vec::new();
        let mut i: usize = 0;
        while i < self.transactions.len()
            invariant
                i <= self.transactions@.len(),
                txs@.len() == i,
                forall|j: int| 0 <= j < i ==> #[trigger] txs@[j]@ == self.transactions@[j]@,
            decreases self.transactions@.len() - i,
        {
            txs.push(self.transactions[i].copy());
            i = i + 1;
        }
        let r = Block {
            timestamp: self.timestamp,
            transactions: txs,
            prev_block_hash: copy_bytes(&self.prev_block_hash),
            hash: copy_bytes(&self.hash),
            nonce: self.nonce,
            height: self.height,
        };
        assert(r@.transactions =~= self@.transactions);
        r
    }

    /// Checks the proof of work: the stored hash is the recomputed one and meets the target.
    pub fn validate(&self) -> (r: bool)
        ensures
            r == pow_valid(self@),
    {
        let prefix = header_prefix(&self.prev_block_hash, &self.transactions, self.timestamp, self.height);
        let h = hash_with_nonce(&prefix, self.nonce);
        bytes_eq(&h, &self.hash) && target_met(&self.hash)
    }

    /// Assembles a block and searches nonces from zero for one whose hash meets the target.
    /// Returns `None` only when no nonce of 64 bits does.
    pub fn new_block(
        transactions: Vec<Transaction>,
        prev_block_hash: Vec<u8>,
        height: u64,
        timestamp: u64,
    ) -> (r: Option<Block>)
        ensures
            r is Some ==> pow_valid(r->Some_0@),
            r is Some ==> r->Some_0@.transactions == txs_view(transactions@),
            r is Some ==> r->Some_0@.prev_block_hash == prev_block_hash@,
            r is Some ==> r->Some_0@.height == height && r->Some_0@.timestamp == timestamp,
            r is None ==> forall|n: u64| !meets_target(
                sha256_of(
                    #[trigger] header_bytes(
                        prev_block_hash@,
                        txs_view(transactions@),
                        timestamp,
                        height,
                        n,
                    ),
                ),
            ),
            r is Some ==> forall|n: u64| n < r->Some_0@.nonce ==> !meets_target(
                sha256_of(
                    #[trigger] header_bytes(
                        prev_block_hash@,
                        txs_view(transactions@),
                        timestamp,
                        height,
                        n,
                    ),
                ),
            ),
    {
        let prefix = header_prefix(&prev_block_hash, &transactions, timestamp, height);
        let ghost ts = txs_view(transactions@);
        let mut nonce: u64 = 0;
        loop
            invariant
                prefix@ == framed(prev_block_hash@) + framed(sha256_of(enc_tx_list(ts))) + le_bytes(
                    timestamp as nat,
                    8,
                ) + le_bytes(height as nat, 8),
                ts == txs_view(transactions@),
                forall|n: u64| n < nonce ==> !meets_target(
                    sha256_of(#[trigger] header_bytes(prev_block_hash@, ts, timestamp, height, n)),
                ),
            decreases u64::MAX - nonce,
        {
            let h = hash_with_nonce(&prefix, nonce);
            assert(h@ == sha256_of(header_bytes(prev_block_hash@, ts, timestamp, height, nonce)));
            if target_met(&h) {
                let b = Block { timestamp, transactions, prev_block_hash, hash: h, nonce, height };
                return Some(b);
            }
            if nonce == u64::MAX {
                assert forall|n: u64| !meets_target(
                    sha256_of(#[trigger] header_bytes(prev_block_hash@, ts, timestamp, height, n)),
                ) by {}
                return None;
            }
            nonce = nonce + 1;
        }
    }

    /// The first block of a chain: no previous hash, height zero.
    pub fn new_genesis_block(coinbase: Transaction, timestamp: u64) -> (r: Option<Block>)
        ensures
            r is Some ==> pow_valid(r->Some_0@),
            r is Some ==> r->Some_0@.transactions == seq![coinbase@],
            r is Some ==> r->Some_0@.prev_block_hash.len() == 0 && r->Some_0@.height == 0,
            r is None ==> forall|n: u64| !meets_target(
                sha256_of(#[trigger] header_bytes(Seq::empty(), seq![coinbase@], timestamp, 0, n)),
            ),
    {
        let ghost c = coinbase@;
        let txs = vec![coinbase];
        assert(txs_view(txs@) =~= seq![c]);
        let prev: Vec<u8> = Vec::new();
        assert(prev@ =~= Seq::<u8>::empty());
        Block::new_block(txs, prev, 0, timestamp)
    }
}

} // verus!
