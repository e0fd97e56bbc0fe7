use crate::hashing::{sha256, sha256_of};
use crate::keys::{ed25519_accepts, ed25519_signature_of, sign_message, verify_message};
use crate::transaction::{
    bytes_eq, copy_bytes, enc_tx, is_coinbase_model, sum_values, tx_id_of, InputModel,
    OutputModel, TXInput, TXOutput, Transaction, TxModel,
};
use crate::utxo::{find_spendable, owned, selects, total, utxos_view, Utxo, UtxoModel};
use crate::utxo::{apply_tx, lemma_owned_total_prefix, lemma_spent_output_gone};
use crate::wallets::{decoded, decode_address, hash_pub_key, pub_key_hash_of, Wallet};
use vstd::prelude::*;

verus! {

#[derive(Debug)]
pub enum TxError {
    /// The recipient's address text is not a well-formed address.
    InvalidAddress,
    /// The sender's unspent outputs do not reach the amount.
    InsufficientFunds,
    /// An output index does not fit an input reference.
    IndexOutOfRange,
}

/// Does input `i` reference entry `u`?
pub open spec fn refers(u: UtxoModel, i: InputModel) -> bool {
    i.txid == u.tx_id && i.vout >= 0 && i.vout as int == u.index
}

/// Is `m` the first entry of `s` that input `i` references?
pub open spec fn is_first_ref(s: Seq<UtxoModel>, i: InputModel, m: int) -> bool {
    0 <= m < s.len() && refers(s[m], i) && forall|j: int| 0 <= j < m ==> !refers(s[j], i)
}

pub open spec fn resolves(s: Seq<UtxoModel>, i: InputModel) -> bool {
    exists|m: int| is_first_ref(s, i, m)
}

pub open spec fn ref_index(s: Seq<UtxoModel>, i: InputModel) -> int {
    choose|m: int| is_first_ref(s, i, m)
}

/// The copy of `t` that input `k` signs: no id, no signatures, no public keys, except that
/// input `k` carries the key hash of the output it spends.
pub open spec fn trimmed(t: TxModel, k: int, pkh: Seq<u8>) -> TxModel {
    TxModel {
        id: Seq::empty(),
        vin: Seq::new(
            t.vin.len(),
            |j: int|
                InputModel {
                    txid: t.vin[j].txid,
                    vout: t.vin[j].vout,
                    signature: Seq::empty(),
                    pub_key: if j == k {
                        pkh
                    } else {
                        Seq::empty()
                    },
                },
        ),
        vout: t.vout,
    }
}

/// The digest that input `k` of `t` signs.
pub open spec fn sig_digest(t: TxModel, k: int, pkh: Seq<u8>) -> Seq<u8> {
    sha256_of(enc_tx(trimmed(t, k, pkh)))
}

/// Input `k` of `t` spends an unspent output of its signer with a valid signature.
pub open spec fn input_ok(s: Seq<UtxoModel>, t: TxModel, k: int) -> bool {
    let i = t.vin[k];
    resolves(s, i) && pub_key_hash_of(i.pub_key) == s[ref_index(s, i)].output.pub_key_hash
        && ed25519_accepts(
        i.pub_key,
        sig_digest(t, k, s[ref_index(s, i)].output.pub_key_hash),
        i.signature,
    )
}

/// No two inputs of `t` reference the same output.
pub open spec fn inputs_distinct(t: TxModel) -> bool {
    forall|a: int, b: int|
        0 <= a < b < t.vin.len() ==> !(t.vin[a].txid == t.vin[b].txid && t.vin[a].vout
            == t.vin[b].vout)
}

/// The total value of the outputs that the inputs `vin` spend, each resolved in `s`.
pub open spec fn input_total(s: Seq<UtxoModel>, vin: Seq<InputModel>) -> int
    decreases vin.len(),
{
    if vin.len() == 0 {
        0
    } else {
        input_total(s, vin.drop_last()) + s[ref_index(s, vin.last())].output.value
    }
}

/// A transaction that may enter a block on top of index `s`. A coinbase needs nothing; any
/// other spends only unspent outputs of its signers, each once, and pays out no more than
/// it spends.
pub open spec fn tx_valid(s: Seq<UtxoModel>, t: TxModel) -> bool {
    is_coinbase_model(t) || (t.vin.len() > 0 && (forall|k: int|
        0 <= k < t.vin.len() ==> #[trigger] input_ok(s, t, k)) && inputs_distinct(t)
        && input_total(s, t.vin) >= sum_values(t.vout))
}

fn first_ref(utxos: &Vec<Utxo>, input: &TXInput) -> (r: Option<usize>)
    ensures
        r is Some ==> is_first_ref(utxos_view(utxos@), input@, r->Some_0 as int),
        r is None ==> !resolves(utxos_view(utxos@), input@),
{
    let ghost s = utxos_view(utxos@);
    let mut m: usize = 0;
    while m < utxos.len()
        invariant
            m <= utxos@.len(),
            s == utxos_view(utxos@),
            forall|j: int| 0 <= j < m ==> !refers(s[j], input@),
        decreases utxos@.len() - m,
    {
        assert(s[m as int] == utxos@[m as int]@);
        if input.vout >= 0 && input.vout as usize == utxos[m].index && bytes_eq(
            &input.txid,
            &utxos[m].tx_id,
        ) {
            return Some(m);
        }
        m = m + 1;
    }
    None
}

/// The digest that input `k` of `t` signs, given the key hash of the output it spends.
pub fn signature_digest(t: &Transaction, k: usize, pkh: &[u8]) -> (r: Vec<u8>)
    ensures
        r@ == sig_digest(t@, k as int, pkh@),
{
    let mut vin: Vec<TXInput> = Vec::new();
    let mut j: usize = 0;
    while j < t.vin.len()
        invariant
            j <= t.vin@.len(),
            vin@.len() == j,
            forall|a: int| 0 <= a < j ==> #[trigger] vin@[a]@ == trimmed(t@, k as int, pkh@).vin[a],
        decreases t.vin@.len() - j,
    {
        let pub_key = if j == k {
            copy_bytes(pkh)
        } else {
            Vec::new()
        };
        vin.push(
            TXInput {
                txid: copy_bytes(&t.vin[j].txid),
                vout: t.vin[j].vout,
                signature: Vec::new(),
                pub_key,
            },
        );
        j = j + 1;
    }
    let mut vout: Vec<TXOutput> = Vec::new();
    let mut o: usize = 0;
    while o < t.vout.len()
        invariant
            o <= t.vout@.len(),
            vout@.len() == o,
            forall|a: int| 0 <= a < o ==> #[trigger] vout@[a]@ == t@.vout[a],
        decreases t.vout@.len() - o,
    {
        vout.push(t.vout[o].copy());
        o = o + 1;
    }
    let copy = Transaction { id: Vec::new(), vin, vout };
    assert(copy@.vin =~= trimmed(t@, k as int, pkh@).vin);
    assert(copy@.vout =~= t@.vout);
    assert(copy@ == trimmed(t@, k as int, pkh@));
    let bytes = copy.serialize();
    sha256(&bytes)
}

/// Checks `t` against index `utxos`: see `tx_valid`.
pub fn verify_transaction(t: &Transaction, utxos: &Vec<Utxo>) -> (r: bool)
    ensures
        r == tx_valid(utxos_view(utxos@), t@),
{
    if t.is_coinbase() {
        return true;
    }
    if t.vin.len() == 0 {
        return false;
    }
    let ghost s = utxos_view(utxos@);
    let ghost vs = t@.vin;
    let mut acc: u128 = 0;
    let mut k: usize = 0;
    while k < t.vin.len()
        invariant
            k <= t.vin@.len(),
            s == utxos_view(utxos@),
            vs == t@.vin,
            !is_coinbase_model(t@),
            forall|a: int| 0 <= a < k ==> #[trigger] input_ok(s, t@, a),
            forall|a: int, b: int|
                0 <= a < b < k ==> !(vs[a].txid == vs[b].txid && vs[a].vout == vs[b].vout),
            acc as int == input_total(s, vs.subrange(0, k as int)),
            acc <= k * 0xffff_ffff_ffff_ffff,
        decreases t.vin@.len() - k,
    {
        let input = &t.vin[k];
        assert(vs[k as int] == input@);
        let m = match first_ref(utxos, input) {
            Some(m) => m,
            None => {
                assert(!input_ok(s, t@, k as int));
                return false;
            },
        };
        assert(ref_index(s, input@) == m as int);
        let entry = &utxos[m];
        assert(s[m as int] == entry@);
        let mut key_hash = copy_bytes(&input.pub_key);
        hash_pub_key(&mut key_hash);
        if !bytes_eq(&key_hash, &entry.output.pub_key_hash) {
            assert(!input_ok(s, t@, k as int));
            return false;
        }
        let digest = signature_digest(t, k, &entry.output.pub_key_hash);
        if !verify_message(&input.pub_key, &digest, &input.signature) {
            assert(!input_ok(s, t@, k as int));
            return false;
        }
        let mut b: usize = 0;
        while b < k
            invariant
                b <= k < vs.len(),
                vs == t@.vin,
                input@ == vs[k as int],
                forall|a: int| 0 <= a < b ==> !(vs[a].txid == vs[k as int].txid && vs[a].vout == vs[k as int].vout),
            decreases k - b,
        {
            assert(vs[b as int] == t.vin[b as int]@);
            if t.vin[b].vout == input.vout && bytes_eq(&t.vin[b].txid, &input.txid) {
                assert(!inputs_distinct(t@));
                return false;
            }
            b = b + 1;
        }
        assert(vs.subrange(0, k + 1).drop_last() == vs.subrange(0, k as int));
        acc = acc + entry.output.value as u128;
        k = k + 1;
    }
    assert(vs.subrange(0, vs.len() as int) == vs);
    let mut out_total: u128 = 0;
    let ghost os = t@.vout;
    let mut o: usize = 0;
    while o < t.vout.len()
        invariant
            o <= t.vout@.len(),
            os == t@.vout,
            out_total as int == sum_values(os.subrange(0, o as int)),
            out_total <= o * 0xffff_ffff_ffff_ffff,
        decreases t.vout@.len() - o,
    {
        assert(os.subrange(0, o + 1).drop_last() == os.subrange(0, o as int));
        out_total = out_total + t.vout[o].value as u128;
        o = o + 1;
    }
    assert(os.subrange(0, os.len() as int) == os);
    acc >= out_total
}

/// The transfer of `amount` from the key pair (`secret`, `pub_key`) to the holder of `to`, spending the outputs that
/// `find_spendable` selects, with change back to the sender and every input signed.
pub open spec fn is_transfer(
    s: Seq<UtxoModel>,
    secret: Seq<u8>,
    pub_key: Seq<u8>,
    to: Seq<u8>,
    amount: u64,
    t: TxModel,
) -> bool {
    let from = pub_key_hash_of(pub_key);
    exists|sel: Seq<UtxoModel>|
        #![trigger selects(s, from, amount as int, sel)]
        {
            &&& selects(s, from, amount as int, sel)
            &&& total(sel) >= amount
            &&& t.vin.len() == sel.len()
            &&& forall|k: int|
                0 <= k < sel.len() ==> {
                    &&& #[trigger] refers(sel[k], t.vin[k])
                    &&& t.vin[k].pub_key == pub_key
                    &&& t.vin[k].signature == ed25519_signature_of(
                        secret,
                        sig_digest(t, k, sel[k].output.pub_key_hash),
                    )
                }
            &&& t.vout[0] == (OutputModel { value: amount, pub_key_hash: to })
            &&& if total(sel) > amount {
                t.vout.len() == 2 && t.vout[1] == (OutputModel {
                    value: (total(sel) - amount) as u64,
                    pub_key_hash: from,
                })
            } else {
                t.vout.len() == 1
            }
            &&& t.id == tx_id_of(t)
        }
}

impl Transaction {
    /// Builds and signs a transfer of `amount` from `wallet` to the key hash `to`.
    pub fn new_utxo_to_key_hash(wallet: &Wallet, to: &[u8], amount: u64, utxos: &Vec<Utxo>) -> (r:
        Result<Transaction, TxError>)
        requires
            wallet.secret_key@.len() == 32,
        ensures
            r matches Err(TxError::InsufficientFunds) <==> total(
                owned(utxos_view(utxos@), pub_key_hash_of(wallet.public_key@)),
            ) < amount,
            r matches Err(TxError::InvalidAddress) ==> false,
            r matches Err(TxError::IndexOutOfRange) ==> exists|i: int|
                0 <= i < utxos@.len() && utxos@[i].index > i32::MAX,
            r matches Ok(t) ==> is_transfer(
                utxos_view(utxos@),
                wallet.secret_key@,
                wallet.public_key@,
                to@,
                amount,
                t@,
            ),
    {
        let ghost s = utxos_view(utxos@);
        let mut from = copy_bytes(&wallet.public_key);
        hash_pub_key(&mut from);
        let (acc, sel) = find_spendable(utxos, &from, amount);
        let ghost sv = utxos_view(sel@);
        let ghost stop = choose|stop: int|
            #![trigger s.subrange(0, stop)]
            0 <= stop <= s.len() && sv == owned(s.subrange(0, stop), from@) && (stop == s.len()
                || total(sv) >= amount) && forall|j: int|
                0 <= j < stop ==> total(#[trigger] owned(s.subrange(0, j), from@)) < amount;
        proof {
            lemma_owned_total_prefix(s, from@, stop);
            if stop == s.len() {
                assert(s.subrange(0, stop) == s);
            }
        }
        if acc < amount as u128 {
            return Err(TxError::InsufficientFunds);
        }
        let mut vin: Vec<TXInput> = Vec::new();
        let mut k: usize = 0;
        while k < sel.len()
            invariant
                k <= sel@.len(),
                sv == utxos_view(sel@),
                s == utxos_view(utxos@),
                0 <= stop <= s.len(),
                sv == owned(s.subrange(0, stop), from@),
                total(owned(s, from@)) >= amount,
                from@ == pub_key_hash_of(wallet.public_key@),
                vin@.len() == k,
                forall|a: int|
                    0 <= a < k ==> #[trigger] refers(sv[a], vin@[a]@) && vin@[a].pub_key@
                        == wallet.public_key@,
            decreases sel@.len() - k,
        {
            if sel[k].index > i32::MAX as usize {
                proof {
                    lemma_owned_in(s.subrange(0, stop), from@, k as int);
                    let w = choose|w: int| 0 <= w < stop && s.subrange(0, stop)[w] == sv[k as int];
                    assert(s.subrange(0, stop)[w] == s[w]);
                    assert(utxos@[w]@ == s[w]);
                    assert(utxos@[w].index == sel@[k as int].index);
                }
                return Err(TxError::IndexOutOfRange);
            }
            assert(sv[k as int] == sel@[k as int]@);
            vin.push(
                TXInput {
                    txid: copy_bytes(&sel[k].tx_id),
                    vout: sel[k].index as i32,
                    signature: Vec::new(),
                    pub_key: copy_bytes(&wallet.public_key),
                },
            );
            k = k + 1;
        }
        let mut vout: Vec<TXOutput> = Vec::new();
        vout.push(TXOutput { value: amount, pub_key_hash: copy_bytes(to) });
        if acc > amount as u128 {
            vout.push(TXOutput { value: (acc - amount as u128) as u64, pub_key_hash: copy_bytes(&from) });
        }
        let unsigned = Transaction { id: Vec::new(), vin, vout };
        let mut signed: Vec<TXInput> = Vec::new();
        let mut j: usize = 0;
        while j < unsigned.vin.len()
            invariant
                j <= unsigned.vin@.len(),
                wallet.secret_key@.len() == 32,
                unsigned.vin@.len() == sel@.len(),
                sv == utxos_view(sel@),
                signed@.len() == j,
                forall|a: int|
                    0 <= a < j ==> (#[trigger] signed@[a])@.txid == unsigned@.vin[a].txid
                        && signed@[a]@.vout == unsigned@.vin[a].vout && signed@[a]@.pub_key
                        == unsigned@.vin[a].pub_key && signed@[a]@.signature
                        == ed25519_signature_of(wallet.secret_key@, sig_digest(unsigned@, a, sv[a].output.pub_key_hash)),
            decreases unsigned.vin@.len() - j,
        {
            assert(sv[j as int] == sel@[j as int]@);
            let digest = signature_digest(&unsigned, j, &sel[j].output.pub_key_hash);
            let signature = sign_message(&wallet.secret_key, &digest);
            let input = &unsigned.vin[j];
            assert(unsigned@.vin[j as int] == input@);
            signed.push(
                TXInput {
                    txid: copy_bytes(&input.txid),
                    vout: input.vout,
                    signature,
                    pub_key: copy_bytes(&input.pub_key),
                },
            );
            j = j + 1;
        }
        let mut tx = Transaction { id: Vec::new(), vin: signed, vout: unsigned.vout };
        let id = tx.hash();
        tx.id = id;
        assert forall|a: int, p: Seq<u8>| 0 <= a < sel@.len() implies trimmed(tx@, a, p) == trimmed(
            unsigned@,
            a,
            p,
        ) by {
            assert(trimmed(tx@, a, p).vin =~= trimmed(unsigned@, a, p).vin);
        }
        assert forall|a: int| 0 <= a < sv.len() implies #[trigger] refers(sv[a], tx@.vin[a])
            && tx@.vin[a].pub_key == wallet.public_key@ && tx@.vin[a].signature
            == ed25519_signature_of(wallet.secret_key@, sig_digest(tx@, a, sv[a].output.pub_key_hash)) by {
            assert(tx@.vin[a] == tx.vin@[a]@);
            assert(unsigned@.vin[a] == unsigned.vin@[a]@);
            assert(refers(sv[a], unsigned@.vin[a]));
        }
        assert(selects(s, from@, amount as int, sv));
        Ok(tx)
    }

    /// Builds and signs a transfer of `amount` from `wallet` to the address text `to_address`.
    pub fn new_utxo(wallet: &Wallet, to_address: &str, amount: u64, utxos: &Vec<Utxo>) -> (r:
        Result<Transaction, TxError>)
        requires
            wallet.secret_key@.len() == 32,
        ensures
            r matches Err(TxError::InvalidAddress) <==> decoded(to_address@) is None,
            r matches Err(TxError::IndexOutOfRange) ==> exists|i: int|
                0 <= i < utxos@.len() && utxos@[i].index > i32::MAX,
            decoded(to_address@) is Some ==> (r matches Err(TxError::InsufficientFunds)
                <==> total(owned(utxos_view(utxos@), pub_key_hash_of(wallet.public_key@)))
                < amount),
            r matches Ok(t) ==> is_transfer(
                utxos_view(utxos@),
                wallet.secret_key@,
                wallet.public_key@,
                decoded(to_address@)->Some_0,
                amount,
                t@,
            ),
    {
        match decode_address(to_address) {
            Some(to) => Transaction::new_utxo_to_key_hash(wallet, &to, amount, utxos),
            None => Err(TxError::InvalidAddress),
        }
    }
}

/// Once a transaction has consumed an output, no later transaction that spends the same
/// output is valid on the resulting index.
pub proof fn lemma_double_spend_rejected(s: Seq<UtxoModel>, t: TxModel, k: int, t2: TxModel, j: int)
    requires
        !is_coinbase_model(t),
        0 <= k < t.vin.len(),
        t.vin[k].vout >= 0,
        t.vin[k].txid != t.id,
        !is_coinbase_model(t2),
        0 <= j < t2.vin.len(),
        t2.vin[j].txid == t.vin[k].txid,
        t2.vin[j].vout == t.vin[k].vout,
    ensures
        !tx_valid(apply_tx(s, t), t2),
{
    lemma_spent_output_gone(s, t, k);
    let s2 = apply_tx(s, t);
    assert(!resolves(s2, t2.vin[j]));
    assert(!input_ok(s2, t2, j));
}

proof fn lemma_owned_in(s: Seq<UtxoModel>, pkh: Seq<u8>, k: int)
    requires
        0 <= k < owned(s, pkh).len(),
    ensures
        exists|w: int| 0 <= w < s.len() && s[w] == owned(s, pkh)[k],
    decreases s.len(),
{
    if s.last().output.pub_key_hash == pkh && k == owned(s, pkh).len() - 1 {
        assert(s[s.len() - 1] == owned(s, pkh)[k]);
    } else {
        lemma_owned_in(s.drop_last(), pkh, k);
        let w = choose|w: int| 0 <= w < s.drop_last().len() && s.drop_last()[w] == owned(s.drop_last(), pkh)[k];
        assert(s[w] == owned(s, pkh)[k]);
    }
}

} // verus!
