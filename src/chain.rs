use crate::block::{header_bytes, meets_target, pow_valid, Block, BlockModel};
use crate::hashing::sha256_of;
use crate::spend::{input_total, tx_valid, verify_transaction};
use crate::transaction::{
    bytes_eq, coinbase_model, copy_bytes, is_coinbase_model, sum_values, tx_id_of, txs_view, TXOutput, Transaction,
    TxModel, SUBSIDY,
};
use crate::utxo::{
    apply_transaction, apply_transactions, apply_txs, balance, count_ids, count_transactions,
    find_spendable, find_utxo_for_address, owned, reindex_of, selects, total, utxos_view, Utxo,
    UtxoModel,
};
use vstd::prelude::*;

verus! {

#[derive(Debug)]
pub enum ChainError {
    /// Bad proof of work, a wrong previous hash or height.
    InvalidBlock,
    /// A transaction that does not fit the index it is applied to.
    InvalidTransaction,
    /// No 64-bit nonce meets the target.
    NonceExhausted,
}

/// The text "genesis", carried by the first coinbase.
pub open spec fn genesis_data() -> Seq<u8> {
    seq![103u8, 101, 110, 101, 115, 105, 115]
}

/// The transaction lists of a sequence of blocks.
pub open spec fn chain_txs(blocks: Seq<BlockModel>) -> Seq<Seq<TxModel>> {
    blocks.map_values(|b: BlockModel| b.transactions)
}

pub open spec fn blocks_view(v: Seq<Block>) -> Seq<BlockModel> {
    v.map_values(|b: Block| b@)
}

/// Is transaction `t`, at place `pos` of its block, acceptable on top of index `s`? The first
/// is the coinbase paying the reward; the others are valid spends. Each carries its own id.
pub open spec fn tx_ok_at(s: Seq<UtxoModel>, t: TxModel, pos: int) -> bool {
    t.id == tx_id_of(t) && if pos == 0 {
        is_coinbase_model(t) && t.vout.len() == 1 && t.vout[0].value == SUBSIDY
    } else {
        !is_coinbase_model(t) && tx_valid(s, t)
    }
}

/// Each transaction is acceptable on the index that its predecessors in the block leave.
pub open spec fn txs_valid(s: Seq<UtxoModel>, txs: Seq<TxModel>) -> bool
    decreases txs.len(),
{
    if txs.len() == 0 {
        true
    } else {
        txs_valid(s, txs.drop_last()) && tx_ok_at(
            apply_txs(s, txs.drop_last()),
            txs.last(),
            txs.len() - 1,
        )
    }
}

/// Block `i` of `blocks` stands at height `i`, links to its predecessor and carries its proof
/// of work.
pub open spec fn linked_at(blocks: Seq<BlockModel>, i: int) -> bool {
    blocks[i].height == i && pow_valid(blocks[i]) && if i == 0 {
        blocks[i].prev_block_hash.len() == 0
    } else {
        blocks[i].prev_block_hash == blocks[i - 1].hash
    }
}

/// Would `b` be accepted on top of `blocks`, whose index is `s`?
pub open spec fn accepts(blocks: Seq<BlockModel>, s: Seq<UtxoModel>, b: BlockModel) -> bool {
    blocks.len() > 0 && b.height == blocks.len() && b.prev_block_hash == blocks.last().hash
        && pow_valid(b) && b.transactions.len() > 0 && txs_valid(s, b.transactions)
}

/// Blocks from genesis to tip, hash-linked.
#[derive(Debug)]
pub struct Blockchain {
    pub blocks: Vec<Block>,
}

impl Blockchain {
    pub open spec fn view_blocks(&self) -> Seq<BlockModel> {
        blocks_view(self.blocks@)
    }

    pub open spec fn wf(&self) -> bool {
        self.blocks@.len() > 0 && forall|i: int|
            0 <= i < self.blocks@.len() ==> #[trigger] linked_at(self.view_blocks(), i)
    }

    /// A chain of one genesis block whose coinbase pays the reward to `genesis_pkh`.
    pub fn create_blockchain(genesis_pkh: &[u8], timestamp: u64) -> (r: Result<Blockchain, ChainError>)
        ensures
            r matches Ok(c) ==> c.wf() && c.blocks@.len() == 1 && c.view_blocks()[0].transactions
                == seq![coinbase_model(genesis_pkh@, genesis_data())]
                && tx_ok_at(Seq::empty(), c.view_blocks()[0].transactions[0], 0),
            r is Err ==> r matches Err(ChainError::NonceExhausted),
            r is Err ==> forall|n: u64| !meets_target(
                sha256_of(
                    #[trigger] header_bytes(
                        Seq::empty(),
                        seq![coinbase_model(genesis_pkh@, genesis_data())],
                        timestamp,
                        0,
                        n,
                    ),
                ),
            ),
    {
        let data: [u8; 7] = [103u8, 101, 110, 101, 115, 105, 115];
        assert(data@ == genesis_data());
        let cbtx = Transaction::new_coinbase(genesis_pkh, &data);
        match Block::new_genesis_block(cbtx, timestamp) {
            Some(b) => {
                let mut blocks: Vec<Block> = Vec::new();
                blocks.push(b);
                let c = Blockchain { blocks };
                assert(c.view_blocks()[0] == b@);
                assert(linked_at(c.view_blocks(), 0));
                Ok(c)
            },
            None => Err(ChainError::NonceExhausted),
        }
    }

    /// Checks a chain read from storage: heights, links and proofs of work.
    pub fn is_valid(&self) -> (r: bool)
        ensures
            r == self.wf(),
    {
        if self.blocks.len() == 0 {
            return false;
        }
        let ghost bs = self.view_blocks();
        let mut i: usize = 0;
        while i < self.blocks.len()
            invariant
                i <= self.blocks@.len(),
                bs == self.view_blocks(),
                forall|j: int| 0 <= j < i ==> #[trigger] linked_at(bs, j),
            decreases self.blocks@.len() - i,
        {
            let b = &self.blocks[i];
            assert(bs[i as int] == b@);
            let linked = if i == 0 {
                b.prev_block_hash.len() == 0
            } else {
                assert(bs[i - 1] == self.blocks@[i - 1]@);
                bytes_eq(&b.prev_block_hash, &self.blocks[i - 1].hash)
            };
            if b.height != i as u64 || !linked || !b.validate() {
                assert(!linked_at(bs, i as int));
                return false;
            }
            i = i + 1;
        }
        true
    }

    /// The block `depth` steps back from the tip: the tip at zero, genesis at the last step.
    pub fn block_from_tip(&self, depth: usize) -> (r: Option<&Block>)
        ensures
            depth < self.blocks@.len() ==> r == Some(&self.blocks@[self.blocks@.len() - 1 - depth]),
            depth >= self.blocks@.len() ==> r is None,
    {
        if depth < self.blocks.len() {
            Some(&self.blocks[self.blocks.len() - 1 - depth])
        } else {
            None
        }
    }

    /// The hash of the last block.
    pub fn tip(&self) -> (r: &Vec<u8>)
        requires
            self.wf(),
        ensures
            r@ == self.view_blocks().last().hash,
    {
        &self.blocks[self.blocks.len() - 1].hash
    }

    /// The height of the last block.
    pub fn get_best_height(&self) -> (r: u64)
        requires
            self.wf(),
        ensures
            r == self.blocks@.len() - 1,
    {
        assert(linked_at(self.view_blocks(), self.blocks@.len() - 1));
        (self.blocks.len() - 1) as u64
    }

    /// The block with hash `hash`, searched from the tip down.
    pub fn get_block(&self, hash: &[u8]) -> (r: Option<&Block>)
        ensures
            r is Some ==> exists|i: int| 0 <= i < self.blocks@.len() && self.blocks@[i] == *r->Some_0
                && self.blocks@[i].hash@ == hash@,
            r is None ==> forall|i: int| 0 <= i < self.blocks@.len() ==> self.blocks@[i].hash@ != hash@,
    {
        let mut i: usize = self.blocks.len();
        while i > 0
            invariant
                i <= self.blocks@.len(),
                forall|j: int| i <= j < self.blocks@.len() ==> self.blocks@[j].hash@ != hash@,
            decreases i,
        {
            i = i - 1;
            if bytes_eq(&self.blocks[i].hash, hash) {
                return Some(&self.blocks[i]);
            }
        }
        None
    }

    /// The block hashes from genesis to tip.
    pub fn get_block_hashes(&self) -> (r: Vec<Vec<u8>>)
        ensures
            r@.len() == self.blocks@.len(),
            forall|i: int| 0 <= i < r@.len() ==> #[trigger] r@[i]@ == self.blocks@[i].hash@,
    {
        let mut r: Vec<Vec<u8>> = Vec::new();
        let mut i: usize = 0;
        while i < self.blocks.len()
            invariant
                i <= self.blocks@.len(),
                r@.len() == i,
                forall|j: int| 0 <= j < i ==> #[trigger] r@[j]@ == self.blocks@[j].hash@,
            decreases self.blocks@.len() - i,
        {
            r.push(copy_bytes(&self.blocks[i].hash));
            i = i + 1;
        }
        r
    }
}

pub fn copy_utxos(v: &Vec<Utxo>) -> (r: Vec<Utxo>)
    ensures
        utxos_view(r@) == utxos_view(v@),
{
    let mut r: Vec<Utxo> = Vec::new();
    let mut i: usize = 0;
    while i < v.len()
        invariant
            i <= v@.len(),
            r@.len() == i,
            forall|j: int| 0 <= j < i ==> #[trigger] r@[j]@ == v@[j]@,
        decreases v@.len() - i,
    {
        r.push(v[i].copy());
        i = i + 1;
    }
    assert(utxos_view(r@) =~= utxos_view(v@));
    r
}

/// Checks the transactions of a block against index `utxos`: see `txs_valid`.
pub fn check_transactions(utxos: &Vec<Utxo>, txs: &Vec<Transaction>) -> (r: bool)
    ensures
        r == txs_valid(utxos_view(utxos@), txs_view(txs@)),
{
    let ghost s = utxos_view(utxos@);
    let ghost ts = txs_view(txs@);
    let mut work = copy_utxos(utxos);
    let mut i: usize = 0;
    while i < txs.len()
        invariant
            i <= txs@.len(),
            s == utxos_view(utxos@),
            ts == txs_view(txs@),
            txs_valid(s, ts.subrange(0, i as int)),
            utxos_view(work@) == apply_txs(s, ts.subrange(0, i as int)),
        decreases txs@.len() - i,
    {
        let t = &txs[i];
        assert(ts.subrange(0, i + 1).drop_last() == ts.subrange(0, i as int));
        assert(ts[i as int] == t@);
        let id = t.hash();
        let ok_id = bytes_eq(&id, &t.id);
        let ok = if i == 0 {
            t.is_coinbase() && t.vout.len() == 1 && t.vout[0].value == SUBSIDY
        } else {
            !t.is_coinbase() && verify_transaction(t, &work)
        };
        if !(ok_id && ok) {
            proof {
                lemma_txs_valid_prefix(s, ts, i + 1);
            }
            return false;
        }
        apply_transaction(&mut work, t);
        i = i + 1;
    }
    assert(ts.subrange(0, ts.len() as int) == ts);
    true
}

/// Validity of a block's transactions holds of each of its prefixes.
proof fn lemma_txs_valid_prefix(s: Seq<UtxoModel>, ts: Seq<TxModel>, n: int)
    requires
        0 <= n <= ts.len(),
        !txs_valid(s, ts.subrange(0, n)),
    ensures
        !txs_valid(s, ts),
    decreases ts.len(),
{
    if n == ts.len() {
        assert(ts.subrange(0, n) == ts);
    } else {
        assert(ts.drop_last().subrange(0, n) == ts.subrange(0, n));
        lemma_txs_valid_prefix(s, ts.drop_last(), n);
    }
}

/// A chain together with the index of its unspent outputs, kept equal to a full rebuild.
#[derive(Debug)]
pub struct UTXOSet {
    pub blockchain: Blockchain,
    pub utxos: Vec<Utxo>,
}

impl UTXOSet {
    pub open spec fn wf(&self) -> bool {
        self.blockchain.wf() && utxos_view(self.utxos@) == reindex_of(
            chain_txs(self.blockchain.view_blocks()),
        )
    }

    /// Pairs a chain with its index, built by `reindex`.
    pub fn new(blockchain: Blockchain) -> (r: UTXOSet)
        requires
            blockchain.wf(),
        ensures
            r.wf(),
            r.blockchain == blockchain,
    {
        let mut r = UTXOSet { blockchain, utxos: Vec::new() };
        r.reindex();
        r
    }

    /// Rebuilds the index from genesis.
    pub fn reindex(&mut self)
        ensures
            final(self).blockchain == old(self).blockchain,
            utxos_view(final(self).utxos@) == reindex_of(chain_txs(final(self).blockchain.view_blocks())),
    {
        let ghost bs = self.blockchain.view_blocks();
        let mut utxos: Vec<Utxo> = Vec::new();
        let mut i: usize = 0;
        while i < self.blockchain.blocks.len()
            invariant
                i <= self.blockchain.blocks@.len(),
                bs == self.blockchain.view_blocks(),
                utxos_view(utxos@) == reindex_of(chain_txs(bs.subrange(0, i as int))),
            decreases self.blockchain.blocks@.len() - i,
        {
            apply_transactions(&mut utxos, &self.blockchain.blocks[i].transactions);
            assert(chain_txs(bs.subrange(0, i + 1)).drop_last() =~= chain_txs(bs.subrange(0, i as int)));
            assert(chain_txs(bs.subrange(0, i + 1)).last() == txs_view(self.blockchain.blocks@[i as int].transactions@));
            i = i + 1;
        }
        assert(bs.subrange(0, bs.len() as int) == bs);
        self.utxos = utxos;
    }

    /// Appends a block received from a peer, and applies it to the index; all or nothing.
    pub fn add_block(&mut self, block: Block) -> (r: Result<(), ChainError>)
        requires
            old(self).wf(),
        ensures
            final(self).wf(),
            r is Ok <==> accepts(old(self).blockchain.view_blocks(), utxos_view(old(self).utxos@), block@),
            r is Ok ==> final(self).blockchain.view_blocks() == old(self).blockchain.view_blocks().push(block@),
            r is Ok ==> utxos_view(final(self).utxos@) == apply_txs(utxos_view(old(self).utxos@), block@.transactions),
            r is Err ==> final(self).blockchain.view_blocks() == old(self).blockchain.view_blocks()
                && final(self).utxos@ == old(self).utxos@,
            r matches Err(e) ==> (e is InvalidTransaction <==> (block@.height == old(self).blockchain.blocks@.len()
                && block@.prev_block_hash == old(self).blockchain.view_blocks().last().hash && pow_valid(block@))),
    {
        let ghost bs = self.blockchain.view_blocks();
        if block.height != self.blockchain.blocks.len() as u64
            || !bytes_eq(&block.prev_block_hash, self.blockchain.tip()) || !block.validate() {
            return Err(ChainError::InvalidBlock);
        }
        if block.transactions.len() == 0 || !check_transactions(&self.utxos, &block.transactions) {
            return Err(ChainError::InvalidTransaction);
        }
        UTXOSet::update(&mut self.utxos, &block);
        self.blockchain.blocks.push(block);
        proof {
            let nb = self.blockchain.view_blocks();
            assert(nb == bs.push(block@));
            assert(chain_txs(nb).drop_last() =~= chain_txs(bs));
            assert forall|i: int| 0 <= i < nb.len() implies #[trigger] linked_at(nb, i) by {
                if i < bs.len() {
                    assert(linked_at(bs, i));
                }
            }
        }
        Ok(())
    }

    /// Validates `transactions` against the index, mines a block of them on top of the tip,
    /// appends it and applies it to the index; returns the block.
    pub fn mine_block(&mut self, transactions: Vec<Transaction>, timestamp: u64) -> (r: Result<Block, ChainError>)
        requires
            old(self).wf(),
        ensures
            final(self).wf(),
            r matches Err(ChainError::InvalidTransaction) <==> !(transactions@.len() > 0 && txs_valid(
                utxos_view(old(self).utxos@),
                txs_view(transactions@),
            )),
            r matches Err(ChainError::InvalidBlock) ==> old(self).blockchain.blocks@.len() - 1 == u64::MAX,
            r matches Err(ChainError::NonceExhausted) ==> forall|n: u64| !meets_target(
                sha256_of(
                    #[trigger] header_bytes(
                        old(self).blockchain.view_blocks().last().hash,
                        txs_view(transactions@),
                        timestamp,
                        old(self).blockchain.blocks@.len() as u64,
                        n,
                    ),
                ),
            ),
            r matches Ok(b) ==> b@.transactions == txs_view(transactions@) && b@.height == old(self).blockchain.blocks@.len()
                && final(self).blockchain.view_blocks() == old(self).blockchain.view_blocks().push(b@)
                && utxos_view(final(self).utxos@) == apply_txs(utxos_view(old(self).utxos@), b@.transactions),
            r is Err ==> final(self).blockchain.view_blocks() == old(self).blockchain.view_blocks()
                && final(self).utxos@ == old(self).utxos@,
    {
        if transactions.len() == 0 || !check_transactions(&self.utxos, &transactions) {
            return Err(ChainError::InvalidTransaction);
        }
        let ghost ts = txs_view(transactions@);
        let prev = copy_bytes(self.blockchain.tip());
        let best = self.blockchain.get_best_height();
        if best == u64::MAX {
            return Err(ChainError::InvalidBlock);
        }
        let height = best + 1;
        match Block::new_block(transactions, prev, height, timestamp) {
            Some(block) => {
                let result = block.copy();
                match self.add_block(block) {
                    Ok(()) => Ok(result),
                    Err(e) => Err(e),
                }
            },
            None => Err(ChainError::NonceExhausted),
        }
    }

    /// Applies one block's transactions to the index, as `add_block` does after validation.
    pub fn update(utxos: &mut Vec<Utxo>, block: &Block)
        ensures
            utxos_view(final(utxos)@) == apply_txs(utxos_view(old(utxos)@), block@.transactions),
    {
        apply_transactions(utxos, &block.transactions);
    }

    /// The height of the tip.
    pub fn get_best_height(&self) -> (r: u64)
        requires
            self.wf(),
        ensures
            r == self.blockchain.blocks@.len() - 1,
    {
        self.blockchain.get_best_height()
    }

    /// See `utxo::find_spendable`.
    pub fn find_spendable(&self, pkh: &[u8], amount: u64) -> (r: (u128, Vec<Utxo>))
        ensures
            selects(utxos_view(self.utxos@), pkh@, amount as int, utxos_view(r.1@)),
            r.0 as int == total(utxos_view(r.1@)),
    {
        find_spendable(&self.utxos, pkh, amount)
    }

    /// Every unspent output paid to `pkh`.
    pub fn find_utxo(&self, pkh: &[u8]) -> (r: Vec<TXOutput>)
        ensures
            r@.map_values(|o: TXOutput| o@) == owned(utxos_view(self.utxos@), pkh@).map_values(
                |u: UtxoModel| u.output,
            ),
    {
        find_utxo_for_address(&self.utxos, pkh)
    }

    /// The total unspent value paid to `pkh`.
    pub fn get_balance(&self, pkh: &[u8]) -> (r: u128)
        ensures
            r as int == total(owned(utxos_view(self.utxos@), pkh@)),
    {
        balance(&self.utxos, pkh)
    }

    /// The number of transactions with an unspent output.
    pub fn count_transactions(&self) -> (r: usize)
        ensures
            r as int == count_ids(utxos_view(self.utxos@)),
    {
        count_transactions(&self.utxos)
    }
}

/// Applying one more block to the index of a chain gives the index of the longer chain, so
/// updating block by block from genesis agrees with a full rebuild entry for entry.
pub proof fn lemma_update_agrees_with_reindex(chain: Seq<Seq<TxModel>>, txs: Seq<TxModel>)
    ensures
        reindex_of(chain.push(txs)) == apply_txs(reindex_of(chain), txs),
{
    assert(chain.push(txs).drop_last() == chain);
}

/// Every transaction but the coinbase in an accepted block spends outputs worth at least what
/// it pays out; the difference goes to nobody.
pub proof fn lemma_accepted_spends_cover_outputs(s: Seq<UtxoModel>, txs: Seq<TxModel>, i: int)
    requires
        txs_valid(s, txs),
        0 < i < txs.len(),
    ensures
        !is_coinbase_model(txs[i]),
        input_total(apply_txs(s, txs.subrange(0, i)), txs[i].vin) >= sum_values(txs[i].vout),
    decreases txs.len(),
{
    if i == txs.len() - 1 {
        assert(txs.drop_last() == txs.subrange(0, i));
    } else {
        assert(txs.drop_last().subrange(0, i) == txs.subrange(0, i));
        lemma_accepted_spends_cover_outputs(s, txs.drop_last(), i);
    }
}

} // verus!
