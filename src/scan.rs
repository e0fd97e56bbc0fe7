use crate::transaction::TxModel;
use crate::utxo::{apply_txs, new_outputs, owned, reindex_of, remove_spent, spent_by, total, UtxoModel};
use vstd::prelude::*;

verus! {

/// The entries of `s` that satisfy `p`, in order.
pub open spec fn keep(s: Seq<UtxoModel>, p: spec_fn(UtxoModel) -> bool) -> Seq<UtxoModel>
    decreases s.len(),
{
    if s.len() == 0 {
        s
    } else if p(s.last()) {
        keep(s.drop_last(), p).push(s.last())
    } else {
        keep(s.drop_last(), p)
    }
}

/// The transactions of a chain, block after block, in one list.
pub open spec fn flatten(chain: Seq<Seq<TxModel>>) -> Seq<TxModel>
    decreases chain.len(),
{
    if chain.len() == 0 {
        Seq::empty()
    } else {
        flatten(chain.drop_last()) + chain.last()
    }
}

/// Is `u`, an output of transaction `j` of `txs`, spent by a later transaction?
pub open spec fn spent_later(txs: Seq<TxModel>, j: int, u: UtxoModel) -> bool {
    exists|k: int| j < k < txs.len() && spent_by(u, #[trigger] txs[k])
}

/// The outputs of the first `n` transactions of `txs` that no later transaction of `txs`
/// spends, in order.
pub open spec fn scan_unspent(txs: Seq<TxModel>, n: int) -> Seq<UtxoModel>
    decreases n,
{
    if n <= 0 {
        Seq::empty()
    } else {
        scan_unspent(txs, n - 1) + keep(
            new_outputs(txs[n - 1]),
            |u: UtxoModel| !spent_later(txs, n - 1, u),
        )
    }
}

proof fn lemma_keep_ext(s: Seq<UtxoModel>, p: spec_fn(UtxoModel) -> bool, q: spec_fn(UtxoModel) -> bool)
    requires
        forall|u: UtxoModel| #[trigger] p(u) == q(u),
    ensures
        keep(s, p) == keep(s, q),
    decreases s.len(),
{
    if s.len() > 0 {
        lemma_keep_ext(s.drop_last(), p, q);
    }
}

proof fn lemma_keep_all(s: Seq<UtxoModel>, p: spec_fn(UtxoModel) -> bool)
    requires
        forall|u: UtxoModel| #[trigger] p(u),
    ensures
        keep(s, p) == s,
    decreases s.len(),
{
    if s.len() > 0 {
        lemma_keep_all(s.drop_last(), p);
        assert(s.drop_last().push(s.last()) == s);
    }
}

proof fn lemma_remove_spent_is_keep(s: Seq<UtxoModel>, t: TxModel)
    ensures
        remove_spent(s, t) == keep(s, |u: UtxoModel| !spent_by(u, t)),
    decreases s.len(),
{
    if s.len() > 0 {
        lemma_remove_spent_is_keep(s.drop_last(), t);
    }
}

proof fn lemma_keep_concat(a: Seq<UtxoModel>, b: Seq<UtxoModel>, p: spec_fn(UtxoModel) -> bool)
    ensures
        keep(a + b, p) == keep(a, p) + keep(b, p),
    decreases b.len(),
{
    if b.len() == 0 {
        assert(a + b == a);
        assert(keep(a, p) + keep(b, p) == keep(a, p));
    } else {
        assert((a + b).drop_last() == a + b.drop_last());
        assert((a + b).last() == b.last());
        lemma_keep_concat(a, b.drop_last(), p);
        if p(b.last()) {
            assert(keep(a, p) + keep(b.drop_last(), p).push(b.last()) == (keep(a, p) + keep(
                b.drop_last(),
                p,
            )).push(b.last()));
        }
    }
}

proof fn lemma_keep_keep(s: Seq<UtxoModel>, p: spec_fn(UtxoModel) -> bool, q: spec_fn(UtxoModel) -> bool)
    ensures
        keep(keep(s, p), q) == keep(s, |u: UtxoModel| p(u) && q(u)),
    decreases s.len(),
{
    if s.len() > 0 {
        lemma_keep_keep(s.drop_last(), p, q);
        if p(s.last()) {
            assert(keep(s, p).drop_last() == keep(s.drop_last(), p));
        }
    }
}

/// Appending transaction `t` to `txs` removes from the scan exactly what `t` spends.
proof fn lemma_scan_push_prefix(txs: Seq<TxModel>, t: TxModel, n: int)
    requires
        0 <= n <= txs.len(),
    ensures
        scan_unspent(txs.push(t), n) == remove_spent(scan_unspent(txs, n), t),
    decreases n,
{
    let tp = txs.push(t);
    if n <= 0 {
        assert(remove_spent(Seq::<UtxoModel>::empty(), t) == Seq::<UtxoModel>::empty());
    } else {
        lemma_scan_push_prefix(txs, t, n - 1);
        let outs = new_outputs(txs[n - 1]);
        assert(tp[n - 1] == txs[n - 1]);
        let p = |u: UtxoModel| !spent_later(txs, n - 1, u);
        let q = |u: UtxoModel| !spent_by(u, t);
        let pt = |u: UtxoModel| !spent_later(tp, n - 1, u);
        assert forall|u: UtxoModel| #[trigger] pt(u) == (p(u) && q(u)) by {
            if spent_later(tp, n - 1, u) && !spent_by(u, t) {
                let k = choose|k: int| n - 1 < k < tp.len() && spent_by(u, #[trigger] tp[k]);
                assert(k < txs.len());
                assert(tp[k] == txs[k]);
            }
            if spent_later(txs, n - 1, u) {
                let k = choose|k: int| n - 1 < k < txs.len() && spent_by(u, #[trigger] txs[k]);
                assert(tp[k] == txs[k]);
            }
            if spent_by(u, t) {
                assert(tp[txs.len() as int] == t);
            }
        }
        lemma_keep_keep(outs, p, q);
        lemma_keep_ext(outs, pt, |u: UtxoModel| p(u) && q(u));
        lemma_remove_spent_is_keep(keep(outs, p), t);
        lemma_remove_spent_is_keep(scan_unspent(txs, n - 1), t);
        lemma_remove_spent_is_keep(scan_unspent(txs, n - 1) + keep(outs, p), t);
        lemma_keep_concat(scan_unspent(txs, n - 1), keep(outs, p), q);
    }
}

/// The index that applying `txs` to an empty one leaves is the scan of `txs`.
proof fn lemma_apply_is_scan(txs: Seq<TxModel>)
    ensures
        apply_txs(Seq::empty(), txs) == scan_unspent(txs, txs.len() as int),
    decreases txs.len(),
{
    if txs.len() > 0 {
        let pre = txs.drop_last();
        let t = txs.last();
        assert(pre.push(t) == txs);
        lemma_apply_is_scan(pre);
        lemma_scan_push_prefix(pre, t, pre.len() as int);
        let p = |u: UtxoModel| !spent_later(txs, txs.len() - 1, u);
        assert forall|u: UtxoModel| #[trigger] p(u) by {}
        lemma_keep_all(new_outputs(t), p);
    }
}

proof fn lemma_apply_concat(s: Seq<UtxoModel>, a: Seq<TxModel>, b: Seq<TxModel>)
    ensures
        apply_txs(s, a + b) == apply_txs(apply_txs(s, a), b),
    decreases b.len(),
{
    if b.len() == 0 {
        assert(a + b == a);
    } else {
        assert((a + b).drop_last() == a + b.drop_last());
        assert((a + b).last() == b.last());
        lemma_apply_concat(s, a, b.drop_last());
    }
}

proof fn lemma_reindex_is_flat(chain: Seq<Seq<TxModel>>)
    ensures
        reindex_of(chain) == apply_txs(Seq::empty(), flatten(chain)),
    decreases chain.len(),
{
    if chain.len() > 0 {
        lemma_reindex_is_flat(chain.drop_last());
        lemma_apply_concat(Seq::empty(), flatten(chain.drop_last()), chain.last());
    }
}

/// The index of a chain holds exactly the outputs of its transactions that no later
/// transaction spends, in order; so the balance of any key hash read from a rebuilt index
/// equals the sum found by scanning every block's outputs and leaving out the spent ones.
pub proof fn lemma_reindex_balance_is_scan(chain: Seq<Seq<TxModel>>, pkh: Seq<u8>)
    ensures
        reindex_of(chain) == scan_unspent(flatten(chain), flatten(chain).len() as int),
        total(owned(reindex_of(chain), pkh)) == total(
            owned(scan_unspent(flatten(chain), flatten(chain).len() as int), pkh),
        ),
{
    lemma_reindex_is_flat(chain);
    lemma_apply_is_scan(flatten(chain));
}

} // verus!
