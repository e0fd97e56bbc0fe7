use crate::block::{header_bytes, meets_target, Block, BlockModel};
use crate::chain::{accepts, copy_utxos, tx_ok_at, txs_valid, ChainError, UTXOSet};
use crate::encoding::{le_bytes, push_le};
use crate::hashing::sha256_of;
use crate::spend::verify_transaction;
use crate::transaction::{
    bytes_eq, coinbase_model, copy_bytes, txs_view, Transaction, TxModel,
};
use crate::utxo::{apply_transaction, apply_transactions, apply_txs, utxos_view, UtxoModel};
use vstd::prelude::*;

verus! {

/// The messages that peers exchange.
#[derive(Debug)]
pub enum Message {
    /// A handshake that tells the sender's height.
    Version { best_height: u64 },
    /// A request for every block hash.
    GetBlocks,
    /// Block hashes that the sender holds, from genesis up.
    Inv { hashes: Vec<Vec<u8>> },
    /// A request for the block with this hash.
    GetData { hash: Vec<u8> },
    /// One block.
    BlockData { block: Block },
    /// One transaction for the mempool.
    Tx { tx: Transaction },
}

/// The entries of `pool`, in order, that are valid on index `s` after the entries kept before
/// them, each id once.
pub open spec fn still_valid(s: Seq<UtxoModel>, pool: Seq<TxModel>) -> Seq<TxModel>
    decreases pool.len(),
{
    if pool.len() == 0 {
        pool
    } else {
        let kept = still_valid(s, pool.drop_last());
        if tx_ok_at(apply_txs(s, kept), pool.last(), 1) && forall|j: int|
            0 <= j < kept.len() ==> #[trigger] kept[j].id != pool.last().id {
            kept.push(pool.last())
        } else {
            kept
        }
    }
}

fn contains_id(txs: &Vec<Transaction>, id: &[u8]) -> (r: bool)
    ensures
        r == exists|k: int| 0 <= k < txs@.len() && #[trigger] txs_view(txs@)[k].id == id@,
{
    let mut j: usize = 0;
    while j < txs.len()
        invariant
            j <= txs@.len(),
            forall|k: int| 0 <= k < j ==> #[trigger] txs_view(txs@)[k].id != id@,
        decreases txs@.len() - j,
    {
        assert(txs_view(txs@)[j as int] == txs@[j as int]@);
        if bytes_eq(&txs[j].id, id) {
            assert(txs_view(txs@)[j as int].id == id@);
            return true;
        }
        j = j + 1;
    }
    false
}

/// A peer: the chain with its index, and transactions waiting for a block, each id at most
/// once, each valid on the index after those before it.
#[derive(Debug)]
pub struct Node {
    pub utxo_set: UTXOSet,
    pub mempool: Vec<Transaction>,
}

pub open spec fn holds_hash(blocks: Seq<BlockModel>, h: Seq<u8>) -> bool {
    exists|i: int| 0 <= i < blocks.len() && blocks[i].hash == h
}

impl Node {
    pub open spec fn wf(&self) -> bool {
        self.utxo_set.wf()
    }

    /// The index as it stands once the mempool's transactions are applied in order.
    pub open spec fn pooled_index(&self) -> Seq<UtxoModel> {
        apply_txs(utxos_view(self.utxo_set.utxos@), txs_view(self.mempool@))
    }

    pub open spec fn blocks(&self) -> Seq<BlockModel> {
        self.utxo_set.blockchain.view_blocks()
    }

    pub fn new(utxo_set: UTXOSet) -> (r: Node)
        requires
            utxo_set.wf(),
        ensures
            r.wf(),
            r.utxo_set == utxo_set,
            r.mempool@.len() == 0,
    {
        Node { utxo_set, mempool: Vec::new() }
    }

    /// The handshake this node sends.
    pub fn version(&self) -> (r: Message)
        requires
            self.wf(),
        ensures
            r matches Message::Version { best_height } && best_height == self.blocks().len() - 1,
    {
        Message::Version { best_height: self.utxo_set.get_best_height() }
    }

    fn first_missing(&self, hashes: &Vec<Vec<u8>>) -> (r: Option<usize>)
        ensures
            r is Some ==> r->Some_0 < hashes@.len() && !holds_hash(self.blocks(), hashes@[r->Some_0 as int]@)
                && forall|j: int| 0 <= j < r->Some_0 ==> holds_hash(self.blocks(), #[trigger] hashes@[j]@),
            r is None ==> forall|j: int| 0 <= j < hashes@.len() ==> holds_hash(self.blocks(), #[trigger] hashes@[j]@),
    {
        let mut i: usize = 0;
        while i < hashes.len()
            invariant
                i <= hashes@.len(),
                forall|j: int| 0 <= j < i ==> holds_hash(self.blocks(), #[trigger] hashes@[j]@),
            decreases hashes@.len() - i,
        {
            match self.utxo_set.blockchain.get_block(&hashes[i]) {
                Some(b) => {
                    proof {
                        let k = choose|k: int| 0 <= k < self.utxo_set.blockchain.blocks@.len()
                            && self.utxo_set.blockchain.blocks@[k] == *b && self.utxo_set.blockchain.blocks@[k].hash@ == hashes@[i as int]@;
                        assert(self.blocks()[k].hash == hashes@[i as int]@);
                    }
                },
                None => {
                    proof {
                        assert forall|k: int| 0 <= k < self.blocks().len() implies self.blocks()[k].hash != hashes@[i as int]@ by {
                            assert(self.blocks()[k] == self.utxo_set.blockchain.blocks@[k]@);
                        }
                    }
                    return Some(i);
                },
            }
            i = i + 1;
        }
        None
    }

    /// Handles one message from a peer and returns the replies. A peer at a greater height is
    /// asked for its hashes; hashes are answered by a request for the first block not held, so
    /// that blocks are fetched in order; a block is validated and appended, or rejected whole.
    pub fn handle(&mut self, msg: Message) -> (r: Result<Vec<Message>, ChainError>)
        requires
            old(self).wf(),
        ensures
            final(self).wf(),
            match msg {
                Message::Version { best_height } => r matches Ok(replies) && *final(self) == *old(self)
                    && if best_height > old(self).blocks().len() - 1 {
                        replies@.len() == 1 && replies@[0] is GetBlocks
                    } else if best_height < old(self).blocks().len() - 1 {
                        replies@.len() == 1 && (replies@[0] matches Message::Version { best_height: h }
                            && h == old(self).blocks().len() - 1)
                    } else {
                        replies@.len() == 0
                    },
                Message::GetBlocks => r matches Ok(replies) && *final(self) == *old(self) && replies@.len() == 1
                    && (replies@[0] matches Message::Inv { hashes } && hashes@.len() == old(self).blocks().len()
                    && forall|i: int| 0 <= i < hashes@.len() ==> #[trigger] hashes@[i]@ == old(self).blocks()[i].hash),
                Message::Inv { hashes } => r matches Ok(replies) && *final(self) == *old(self) && (
                    if forall|j: int| 0 <= j < hashes@.len() ==> holds_hash(old(self).blocks(), #[trigger] hashes@[j]@) {
                        replies@.len() == 0
                    } else {
                        replies@.len() == 1 && (replies@[0] matches Message::GetData { hash } && exists|j: int|
                            0 <= j < hashes@.len() && hash@ == hashes@[j]@ && !holds_hash(old(self).blocks(), hash@)
                            && forall|k: int| 0 <= k < j ==> holds_hash(old(self).blocks(), #[trigger] hashes@[k]@))
                    }),
                Message::GetData { hash } => r matches Ok(replies) && *final(self) == *old(self) && (
                    if holds_hash(old(self).blocks(), hash@) {
                        replies@.len() == 1 && (replies@[0] matches Message::BlockData { block } && block@.hash == hash@
                            && exists|i: int| 0 <= i < old(self).blocks().len() && old(self).blocks()[i] == block@)
                    } else {
                        replies@.len() == 0
                    }),
                Message::BlockData { block } => (r is Ok <==> accepts(old(self).blocks(), utxos_view(old(self).utxo_set.utxos@), block@))
                    && (r matches Ok(replies) ==> replies@.len() == 1 && replies@[0] is GetBlocks
                        && final(self).blocks() == old(self).blocks().push(block@))
                    && (r is Err ==> final(self).blocks() == old(self).blocks() && final(self).utxo_set.utxos@ == old(self).utxo_set.utxos@),
                Message::Tx { tx } => (r is Ok <==> tx_ok_at(old(self).pooled_index(), tx@, 1)
                    && forall|j: int| 0 <= j < old(self).mempool@.len() ==> #[trigger] txs_view(old(self).mempool@)[j].id != tx.id@)
                    && (r matches Ok(replies) ==> replies@.len() == 0 && final(self).utxo_set == old(self).utxo_set
                        && final(self).mempool@ == old(self).mempool@.push(tx))
                    && (r matches Err(e) ==> e is InvalidTransaction && *final(self) == *old(self)),
            },
    {
        match msg {
            Message::Version { best_height } => {
                let local = self.utxo_set.get_best_height();
                let mut replies: Vec<Message> = Vec::new();
                if best_height > local {
                    replies.push(Message::GetBlocks);
                } else if best_height < local {
                    replies.push(Message::Version { best_height: local });
                }
                Ok(replies)
            },
            Message::GetBlocks => {
                let hashes = self.utxo_set.blockchain.get_block_hashes();
                proof {
                    assert forall|i: int| 0 <= i < hashes@.len() implies #[trigger] hashes@[i]@ == self.blocks()[i].hash by {
                        assert(self.blocks()[i] == self.utxo_set.blockchain.blocks@[i]@);
                    }
                }
                Ok(vec![Message::Inv { hashes }])
            },
            Message::Inv { hashes } => {
                match self.first_missing(&hashes) {
                    Some(i) => Ok(vec![Message::GetData { hash: copy_bytes(&hashes[i]) }]),
                    None => Ok(Vec::new()),
                }
            },
            Message::GetData { hash } => {
                match self.utxo_set.blockchain.get_block(&hash) {
                    Some(b) => {
                        let block = b.copy();
                        proof {
                            let k = choose|k: int| 0 <= k < self.utxo_set.blockchain.blocks@.len()
                                && self.utxo_set.blockchain.blocks@[k] == *b && self.utxo_set.blockchain.blocks@[k].hash@ == hash@;
                            assert(self.blocks()[k] == block@);
                        }
                        Ok(vec![Message::BlockData { block }])
                    },
                    None => {
                        proof {
                            assert forall|k: int| 0 <= k < self.blocks().len() implies self.blocks()[k].hash != hash@ by {
                                assert(self.blocks()[k] == self.utxo_set.blockchain.blocks@[k]@);
                            }
                        }
                        Ok(Vec::new())
                    },
                }
            },
            Message::BlockData { block } => {
                match self.utxo_set.add_block(block) {
                    Ok(()) => Ok(vec![Message::GetBlocks]),
                    Err(e) => Err(e),
                }
            },
            Message::Tx { tx } => {
                let id = tx.hash();
                if !bytes_eq(&id, &tx.id) || tx.is_coinbase() {
                    return Err(ChainError::InvalidTransaction);
                }
                if contains_id(&self.mempool, &tx.id) {
                    return Err(ChainError::InvalidTransaction);
                }
                let mut pooled = copy_utxos(&self.utxo_set.utxos);
                apply_transactions(&mut pooled, &self.mempool);
                if !verify_transaction(&tx, &pooled) {
                    return Err(ChainError::InvalidTransaction);
                }
                self.mempool.push(tx);
                Ok(Vec::new())
            },
        }
    }

    /// The transactions a block mined now would carry: a coinbase paying `miner_pkh`, marked
    /// with the new height, then the mempool in order.
    pub open spec fn pending_block_txs(&self, miner_pkh: Seq<u8>) -> Seq<TxModel> {
        seq![coinbase_model(miner_pkh, le_bytes(self.blocks().len(), 8))] + still_valid(
            utxos_view(self.utxo_set.utxos@),
            txs_view(self.mempool@),
        )
    }

    /// Keeps, in order, the mempool entries still valid on the index: see `still_valid`.
    pub fn prune_mempool(&mut self)
        requires
            old(self).wf(),
        ensures
            final(self).wf(),
            final(self).utxo_set == old(self).utxo_set,
            txs_view(final(self).mempool@) == still_valid(
                utxos_view(old(self).utxo_set.utxos@),
                txs_view(old(self).mempool@),
            ),
    {
        let ghost s = utxos_view(self.utxo_set.utxos@);
        let ghost pool = txs_view(self.mempool@);
        let mut kept: Vec<Transaction> = Vec::new();
        let mut work = copy_utxos(&self.utxo_set.utxos);
        let mut i: usize = 0;
        while i < self.mempool.len()
            invariant
                i <= self.mempool@.len(),
                self.wf(),
                s == utxos_view(self.utxo_set.utxos@),
                pool == txs_view(self.mempool@),
                self.utxo_set == old(self).utxo_set,
                self.mempool@ == old(self).mempool@,
                txs_view(kept@) == still_valid(s, pool.subrange(0, i as int)),
                utxos_view(work@) == apply_txs(s, txs_view(kept@)),
            decreases self.mempool@.len() - i,
        {
            let t = &self.mempool[i];
            assert(pool.subrange(0, i + 1).drop_last() == pool.subrange(0, i as int));
            assert(pool.subrange(0, i + 1).last() == t@);
            let dup = contains_id(&kept, &t.id);
            let id = t.hash();
            let ok = !dup && bytes_eq(&id, &t.id) && !t.is_coinbase() && verify_transaction(t, &work);
            if ok {
                let c = t.copy();
                apply_transaction(&mut work, &c);
                let ghost before = txs_view(kept@);
                kept.push(c);
                assert(txs_view(kept@) =~= before.push(c@));
                assert(txs_view(kept@).drop_last() == before);
            }
            i = i + 1;
        }
        assert(pool.subrange(0, pool.len() as int) == pool);
        self.mempool = kept;
    }

    /// Mines the mempool's still-valid transactions behind a coinbase that pays `miner_pkh`,
    /// empties the mempool and returns the announcement of the new block. Entries that no
    /// longer fit the index are left out first; a block that is still refused empties the
    /// mempool.
    #[verifier::rlimit(80)]
    pub fn mine_pending(&mut self, miner_pkh: &[u8], timestamp: u64) -> (r: Result<Message, ChainError>)
        requires
            old(self).wf(),
        ensures
            final(self).wf(),
            r matches Err(ChainError::InvalidBlock) <==> old(self).blocks().len() - 1 == u64::MAX,
            r matches Err(ChainError::InvalidTransaction) <==> old(self).blocks().len() - 1 < u64::MAX
                && !txs_valid(utxos_view(old(self).utxo_set.utxos@), old(self).pending_block_txs(miner_pkh@)),
            r matches Err(ChainError::InvalidTransaction) ==> final(self).mempool@.len() == 0,
            r matches Err(ChainError::InvalidBlock) ==> *final(self) == *old(self),
            r matches Err(ChainError::NonceExhausted) ==> txs_view(final(self).mempool@) == still_valid(
                utxos_view(old(self).utxo_set.utxos@),
                txs_view(old(self).mempool@),
            ) && forall|n: u64| !meets_target(
                    sha256_of(
                        #[trigger] header_bytes(
                            old(self).blocks().last().hash,
                            old(self).pending_block_txs(miner_pkh@),
                            timestamp,
                            old(self).blocks().len() as u64,
                            n,
                        ),
                    ),
                ),
            r is Err ==> final(self).blocks() == old(self).blocks() && final(self).utxo_set.utxos@
                == old(self).utxo_set.utxos@,
            r is Ok ==> final(self).mempool@.len() == 0 && final(self).blocks() == old(self).blocks().push(
                final(self).blocks().last(),
            ) && final(self).blocks().last().transactions == old(self).pending_block_txs(miner_pkh@),
            r matches Ok(m) ==> m matches Message::Inv { hashes } && hashes@.len() == 1
                && hashes@[0]@ == final(self).blocks().last().hash,
    {
        let best = self.utxo_set.get_best_height();
        if best == u64::MAX {
            return Err(ChainError::InvalidBlock);
        }
        self.prune_mempool();
        let mut data: Vec<u8> = Vec::new();
        push_le(&mut data, best + 1, 8);
        assert(data@ =~= le_bytes(self.blocks().len(), 8));
        let ghost expected = seq![coinbase_model(miner_pkh@, le_bytes(self.blocks().len(), 8))] + txs_view(
            self.mempool@,
        );
        assert(expected == old(self).pending_block_txs(miner_pkh@));
        let mut txs: Vec<Transaction> = Vec::new();
        txs.push(Transaction::new_coinbase(miner_pkh, &data));
        assert(txs_view(txs@) =~= expected.subrange(0, 1));
        let mut i: usize = 0;
        while i < self.mempool.len()
            invariant
                i <= self.mempool@.len(),
                expected.len() == self.mempool@.len() + 1,
                forall|k: int| 0 <= k < self.mempool@.len() ==> expected[k + 1] == #[trigger] self.mempool@[k]@,
                txs_view(txs@) == expected.subrange(0, i + 1),
            decreases self.mempool@.len() - i,
        {
            let ghost before = txs_view(txs@);
            let t = self.mempool[i].copy();
            txs.push(t);
            assert(txs_view(txs@) =~= before.push(t@));
            assert(expected.subrange(0, i + 2) =~= expected.subrange(0, i + 1).push(expected[i + 1]));
            i = i + 1;
        }
        assert(expected.subrange(0, expected.len() as int) == expected);
        match self.utxo_set.mine_block(txs, timestamp) {
            Ok(block) => {
                self.mempool = Vec::new();
                let hash = copy_bytes(&block.hash);
                Ok(Message::Inv { hashes: vec![hash] })
            },
            Err(ChainError::InvalidTransaction) => {
                self.mempool = Vec::new();
                Err(ChainError::InvalidTransaction)
            },
            Err(e) => Err(e),
        }
    }
}

} // verus!
