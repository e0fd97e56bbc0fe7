use crate::transaction::{
    bytes_eq, copy_bytes, is_coinbase_model, txs_view, OutputModel, TXOutput, Transaction, TxModel,
};
use vstd::prelude::*;

verus! {

/// One unspent output: the id of the transaction that made it, its place there, and itself.
#[derive(Debug, Clone, PartialEq, Eq)]
pub struct Utxo {
    pub tx_id: Vec<u8>,
    pub index: usize,
    pub output: TXOutput,
}

pub struct UtxoModel {
    pub tx_id: Seq<u8>,
    pub index: int,
    pub output: OutputModel,
}

impl View for Utxo {
    type V = UtxoModel;

    open spec fn view(&self) -> UtxoModel {
        UtxoModel { tx_id: self.tx_id@, index: self.index as int, output: self.output@ }
    }
}

pub open spec fn utxos_view(v: Seq<Utxo>) -> Seq<UtxoModel> {
    v.map_values(|u: Utxo| u@)
}

/// Does some input of `t` consume `u`? A coinbase consumes nothing.
pub open spec fn spent_by(u: UtxoModel, t: TxModel) -> bool {
    !is_coinbase_model(t) && exists|k: int|
        0 <= k < t.vin.len() && t.vin[k].txid == u.tx_id && t.vin[k].vout >= 0
            && t.vin[k].vout as int == u.index
}

/// The entries of `s` that `t` leaves unspent, in order.
pub open spec fn remove_spent(s: Seq<UtxoModel>, t: TxModel) -> Seq<UtxoModel>
    decreases s.len(),
{
    if s.len() == 0 {
        s
    } else if spent_by(s.last(), t) {
        remove_spent(s.drop_last(), t)
    } else {
        remove_spent(s.drop_last(), t).push(s.last())
    }
}

/// The entries for the outputs of `t`.
pub open spec fn new_outputs(t: TxModel) -> Seq<UtxoModel> {
    Seq::new(t.vout.len(), |i: int| UtxoModel { tx_id: t.id, index: i, output: t.vout[i] })
}

/// The index after one transaction: its inputs' outputs removed, its own outputs added.
pub open spec fn apply_tx(s: Seq<UtxoModel>, t: TxModel) -> Seq<UtxoModel> {
    remove_spent(s, t) + new_outputs(t)
}

/// The index after the transactions of one block, in order.
pub open spec fn apply_txs(s: Seq<UtxoModel>, txs: Seq<TxModel>) -> Seq<UtxoModel>
    decreases txs.len(),
{
    if txs.len() == 0 {
        s
    } else {
        apply_tx(apply_txs(s, txs.drop_last()), txs.last())
    }
}

/// The index of a whole chain, given as the transaction lists of its blocks from genesis.
pub open spec fn reindex_of(chain: Seq<Seq<TxModel>>) -> Seq<UtxoModel>
    decreases chain.len(),
{
    if chain.len() == 0 {
        Seq::empty()
    } else {
        apply_txs(reindex_of(chain.drop_last()), chain.last())
    }
}

impl Utxo {
    pub fn copy(&self) -> (r: Utxo)
        ensures
            r@ == self@,
    {
        Utxo { tx_id: copy_bytes(&self.tx_id), index: self.index, output: self.output.copy() }
    }
}

fn is_spent_by(u: &Utxo, t: &Transaction) -> (r: bool)
    ensures
        r == spent_by(u@, t@),
{
    if t.is_coinbase() {
        return false;
    }
    let mut k: usize = 0;
    while k < t.vin.len()
        invariant
            k <= t.vin@.len(),
            !is_coinbase_model(t@),
            forall|j: int|
                0 <= j < k ==> !(t@.vin[j].txid == u@.tx_id && t@.vin[j].vout >= 0
                    && t@.vin[j].vout as int == u@.index),
        decreases t.vin@.len() - k,
    {
        let input = &t.vin[k];
        if input.vout >= 0 && input.vout as usize == u.index && bytes_eq(&input.txid, &u.tx_id) {
            assert(t@.vin[k as int] == input@);
            return true;
        }
        k = k + 1;
    }
    false
}

/// Applies one transaction to the index.
pub fn apply_transaction(utxos: &mut Vec<Utxo>, t: &Transaction)
    ensures
        utxos_view(final(utxos)@) == apply_tx(utxos_view(old(utxos)@), t@),
{
    let ghost s = utxos_view(utxos@);
    let mut kept: Vec<Utxo> = Vec::new();
    let mut i: usize = 0;
    while i < utxos.len()
        invariant
            i <= utxos@.len(),
            s == utxos_view(utxos@),
            utxos@ == old(utxos)@,
            utxos_view(kept@) == remove_spent(s.subrange(0, i as int), t@),
        decreases utxos@.len() - i,
    {
        assert(s.subrange(0, i + 1).drop_last() == s.subrange(0, i as int));
        assert(s.subrange(0, i + 1).last() == utxos@[i as int]@);
        if !is_spent_by(&utxos[i], t) {
            kept.push(utxos[i].copy());
            assert(utxos_view(kept@) == remove_spent(s.subrange(0, i as int), t@).push(
                utxos@[i as int]@,
            ));
        }
        i = i + 1;
    }
    assert(s.subrange(0, s.len() as int) == s);
    let ghost base = utxos_view(kept@);
    let mut k: usize = 0;
    while k < t.vout.len()
        invariant
            k <= t.vout@.len(),
            base == remove_spent(s, t@),
            utxos_view(kept@) == base + new_outputs(t@).subrange(0, k as int),
        decreases t.vout@.len() - k,
    {
        let ghost before = kept@;
        let entry = Utxo { tx_id: copy_bytes(&t.id), index: k, output: t.vout[k].copy() };
        assert(entry@ == new_outputs(t@)[k as int]);
        kept.push(entry);
        assert(utxos_view(kept@) =~= utxos_view(before).push(entry@));
        assert(new_outputs(t@).subrange(0, k + 1) == new_outputs(t@).subrange(0, k as int).push(
            new_outputs(t@)[k as int],
        ));
        assert(utxos_view(kept@) =~= base + new_outputs(t@).subrange(0, k + 1));
        k = k + 1;
    }
    assert(new_outputs(t@).subrange(0, t@.vout.len() as int) == new_outputs(t@));
    *utxos = kept;
}

/// Applies the transactions of one block to the index, in order.
pub fn apply_transactions(utxos: &mut Vec<Utxo>, txs: &Vec<Transaction>)
    ensures
        utxos_view(final(utxos)@) == apply_txs(
            utxos_view(old(utxos)@),
            txs_view(txs@),
        ),
{
    let ghost ts = txs_view(txs@);
    let mut i: usize = 0;
    while i < txs.len()
        invariant
            i <= txs@.len(),
            ts == txs_view(txs@),
            utxos_view(utxos@) == apply_txs(utxos_view(old(utxos)@), ts.subrange(0, i as int)),
        decreases txs@.len() - i,
    {
        apply_transaction(utxos, &txs[i]);
        assert(ts.subrange(0, i + 1).drop_last() == ts.subrange(0, i as int));
        i = i + 1;
    }
    assert(ts.subrange(0, ts.len() as int) == ts);
}

/// The entries of `s` paid to `pkh`, in order.
pub open spec fn owned(s: Seq<UtxoModel>, pkh: Seq<u8>) -> Seq<UtxoModel>
    decreases s.len(),
{
    if s.len() == 0 {
        s
    } else if s.last().output.pub_key_hash == pkh {
        owned(s.drop_last(), pkh).push(s.last())
    } else {
        owned(s.drop_last(), pkh)
    }
}

/// The total value of the entries of `s`.
pub open spec fn total(s: Seq<UtxoModel>) -> int
    decreases s.len(),
{
    if s.len() == 0 {
        0
    } else {
        total(s.drop_last()) + s.last().output.value
    }
}

/// The number of distinct transaction ids among the entries of `s`.
pub open spec fn count_ids(s: Seq<UtxoModel>) -> int
    decreases s.len(),
{
    if s.len() == 0 {
        0
    } else if exists|j: int| 0 <= j < s.len() - 1 && s[j].tx_id == s.last().tx_id {
        count_ids(s.drop_last())
    } else {
        count_ids(s.drop_last()) + 1
    }
}

/// Does `sel` select outputs of `pkh` from the front of `s` until `amount` is reached, or all
/// of them when it never is?
pub open spec fn selects(s: Seq<UtxoModel>, pkh: Seq<u8>, amount: int, sel: Seq<UtxoModel>) -> bool {
    exists|stop: int|
        #![trigger s.subrange(0, stop)]
        0 <= stop <= s.len() && sel == owned(s.subrange(0, stop), pkh) && (stop == s.len()
            || total(sel) >= amount) && forall|j: int|
            0 <= j < stop ==> total(#[trigger] owned(s.subrange(0, j), pkh)) < amount
}

pub proof fn lemma_total_bound(s: Seq<UtxoModel>)
    ensures
        0 <= total(s) <= s.len() * 0xffff_ffff_ffff_ffff,
    decreases s.len(),
{
    if s.len() > 0 {
        lemma_total_bound(s.drop_last());
    }
}

/// Outputs of `pkh` in a prefix of the index are worth no more than in the whole.
pub proof fn lemma_owned_total_prefix(s: Seq<UtxoModel>, pkh: Seq<u8>, j: int)
    requires
        0 <= j <= s.len(),
    ensures
        total(owned(s.subrange(0, j), pkh)) <= total(owned(s, pkh)),
    decreases s.len(),
{
    if j == s.len() {
        assert(s.subrange(0, j) == s);
    } else {
        assert(s.subrange(0, j) == s.drop_last().subrange(0, j));
        lemma_owned_total_prefix(s.drop_last(), pkh, j);
        if s.last().output.pub_key_hash == pkh {
            assert(owned(s, pkh).drop_last() == owned(s.drop_last(), pkh));
        }
    }
}

pub proof fn lemma_owned_len(s: Seq<UtxoModel>, pkh: Seq<u8>)
    ensures
        owned(s, pkh).len() <= s.len(),
    decreases s.len(),
{
    if s.len() > 0 {
        lemma_owned_len(s.drop_last(), pkh);
    }
}

/// An output consumed by a transaction is gone from the index once that transaction is
/// applied, so no later transaction can spend it again.
pub proof fn lemma_spent_output_gone(s: Seq<UtxoModel>, t: TxModel, k: int)
    requires
        !is_coinbase_model(t),
        0 <= k < t.vin.len(),
        t.vin[k].vout >= 0,
        t.vin[k].txid != t.id,
    ensures
        forall|i: int|
            0 <= i < apply_tx(s, t).len() ==> !(apply_tx(s, t)[i].tx_id == t.vin[k].txid
                && apply_tx(s, t)[i].index == t.vin[k].vout as int),
{
    lemma_remove_spent_unspent(s, t);
    let r = remove_spent(s, t);
    assert forall|i: int|
        0 <= i < apply_tx(s, t).len() implies !(apply_tx(s, t)[i].tx_id == t.vin[k].txid
        && apply_tx(s, t)[i].index == t.vin[k].vout as int) by {
        if i < r.len() {
            assert(!spent_by(r[i], t));
        } else {
            assert(apply_tx(s, t)[i].tx_id == t.id);
        }
    }
}

proof fn lemma_remove_spent_unspent(s: Seq<UtxoModel>, t: TxModel)
    ensures
        forall|i: int|
            0 <= i < remove_spent(s, t).len() ==> !spent_by(#[trigger] remove_spent(s, t)[i], t),
    decreases s.len(),
{
    if s.len() > 0 {
        lemma_remove_spent_unspent(s.drop_last(), t);
        let p = remove_spent(s.drop_last(), t);
        if !spent_by(s.last(), t) {
            assert forall|i: int| 0 <= i < p.push(s.last()).len() implies !spent_by(
                #[trigger] p.push(s.last())[i],
                t,
            ) by {
                if i < p.len() {
                    assert(p.push(s.last())[i] == p[i]);
                }
            }
        }
    }
}

/// Selects outputs paid to `pkh`, from the front of the index, until their value reaches
/// `amount`; returns the value gathered and the entries chosen, which fall short of `amount`
/// only when the index holds no more for `pkh`.
pub fn find_spendable(utxos: &Vec<Utxo>, pkh: &[u8], amount: u64) -> (r: (u128, Vec<Utxo>))
    ensures
        selects(utxos_view(utxos@), pkh@, amount as int, utxos_view(r.1@)),
        r.0 as int == total(utxos_view(r.1@)),
        r.0 as int <= amount as int + 0xffff_ffff_ffff_ffff,
{
    let ghost s = utxos_view(utxos@);
    let mut acc: u128 = 0;
    let mut sel: Vec<Utxo> = Vec::new();
    let mut i: usize = 0;
    while i < utxos.len() && acc < amount as u128
        invariant
            i <= utxos@.len(),
            s == utxos_view(utxos@),
            utxos_view(sel@) == owned(s.subrange(0, i as int), pkh@),
            acc as int == total(utxos_view(sel@)),
            acc as int <= amount as int + 0xffff_ffff_ffff_ffff,
            forall|j: int| 0 <= j < i ==> total(#[trigger] owned(s.subrange(0, j), pkh@)) < amount,
        decreases utxos@.len() - i,
    {
        assert(s.subrange(0, i + 1).drop_last() == s.subrange(0, i as int));
        assert(s.subrange(0, i + 1).last() == utxos@[i as int]@);
        assert(total(owned(s.subrange(0, i as int), pkh@)) < amount);
        if bytes_eq(&utxos[i].output.pub_key_hash, pkh) {
            let ghost before = sel@;
            let entry = utxos[i].copy();
            acc = acc + entry.output.value as u128;
            sel.push(entry);
            assert(utxos_view(sel@) =~= utxos_view(before).push(entry@));
            assert(utxos_view(sel@).drop_last() =~= utxos_view(before));
        }
        i = i + 1;
    }
    if i == utxos.len() {
        assert(s.subrange(0, i as int) == s);
    }
    assert(s.subrange(0, i as int) == s.subrange(0, i as int));
    (acc, sel)
}

/// Every output paid to `pkh` that the index holds, in order.
pub fn find_utxo_for_address(utxos: &Vec<Utxo>, pkh: &[u8]) -> (r: Vec<TXOutput>)
    ensures
        r@.map_values(|o: TXOutput| o@) == owned(utxos_view(utxos@), pkh@).map_values(
            |u: UtxoModel| u.output,
        ),
{
    let ghost s = utxos_view(utxos@);
    let mut out: Vec<TXOutput> = Vec::new();
    let mut i: usize = 0;
    while i < utxos.len()
        invariant
            i <= utxos@.len(),
            s == utxos_view(utxos@),
            out@.map_values(|o: TXOutput| o@) == owned(s.subrange(0, i as int), pkh@).map_values(
                |u: UtxoModel| u.output,
            ),
        decreases utxos@.len() - i,
    {
        assert(s.subrange(0, i + 1).drop_last() == s.subrange(0, i as int));
        assert(s.subrange(0, i + 1).last() == utxos@[i as int]@);
        if bytes_eq(&utxos[i].output.pub_key_hash, pkh) {
            let ghost before = out@;
            let o = utxos[i].output.copy();
            out.push(o);
            assert(out@.map_values(|o: TXOutput| o@) =~= before.map_values(|o: TXOutput| o@).push(
                o@,
            ));
            assert(owned(s.subrange(0, i + 1), pkh@).map_values(|u: UtxoModel| u.output)
                =~= owned(s.subrange(0, i as int), pkh@).map_values(|u: UtxoModel| u.output).push(
                o@,
            ));
        }
        i = i + 1;
    }
    assert(s.subrange(0, s.len() as int) == s);
    out
}

/// The total value paid to `pkh` that the index holds.
pub fn balance(utxos: &Vec<Utxo>, pkh: &[u8]) -> (r: u128)
    ensures
        r as int == total(owned(utxos_view(utxos@), pkh@)),
{
    let ghost s = utxos_view(utxos@);
    let mut acc: u128 = 0;
    let mut i: usize = 0;
    while i < utxos.len()
        invariant
            i <= utxos@.len(),
            s == utxos_view(utxos@),
            acc as int == total(owned(s.subrange(0, i as int), pkh@)),
        decreases utxos@.len() - i,
    {
        assert(s.subrange(0, i + 1).drop_last() == s.subrange(0, i as int));
        assert(s.subrange(0, i + 1).last() == utxos@[i as int]@);
        proof {
            lemma_total_bound(owned(s.subrange(0, i + 1), pkh@));
            lemma_owned_len(s.subrange(0, i + 1), pkh@);
        }
        if bytes_eq(&utxos[i].output.pub_key_hash, pkh) {
            assert(owned(s.subrange(0, i + 1), pkh@).drop_last() =~= owned(
                s.subrange(0, i as int),
                pkh@,
            ));
            acc = acc + utxos[i].output.value as u128;
        }
        i = i + 1;
    }
    assert(s.subrange(0, s.len() as int) == s);
    acc
}

/// The number of distinct transaction ids with an unspent output.
pub fn count_transactions(utxos: &Vec<Utxo>) -> (r: usize)
    ensures
        r as int == count_ids(utxos_view(utxos@)),
{
    let ghost s = utxos_view(utxos@);
    let mut count: usize = 0;
    let mut i: usize = 0;
    while i < utxos.len()
        invariant
            i <= utxos@.len(),
            s == utxos_view(utxos@),
            count as int == count_ids(s.subrange(0, i as int)),
            count <= i,
        decreases utxos@.len() - i,
    {
        let ghost p = s.subrange(0, i + 1);
        assert(p.drop_last() == s.subrange(0, i as int));
        let mut seen = false;
        let mut j: usize = 0;
        while j < i
            invariant
                j <= i,
                i < utxos@.len(),
                s == utxos_view(utxos@),
                p == s.subrange(0, i + 1),
                seen == exists|m: int| 0 <= m < j && p[m].tx_id == p.last().tx_id,
            decreases i - j,
        {
            if bytes_eq(&utxos[j].tx_id, &utxos[i].tx_id) {
                seen = true;
            }
            assert(p[j as int] == utxos@[j as int]@);
            j = j + 1;
        }
        if !seen {
            count = count + 1;
        }
        i = i + 1;
    }
    assert(s.subrange(0, s.len() as int) == s);
    count
}

} // verus!
