use crate::encoding::{framed, le_bytes, push_framed, push_le};
use crate::hashing::{sha256, sha256_of};
use vstd::prelude::*;

verus! {

/// The value minted by every coinbase transaction.
pub const SUBSIDY: u64 = 10;

/// The output index that marks the single input of a coinbase transaction.
pub const COINBASE_VOUT: i32 = -1;

/// A reference to an earlier output, with the proof that the spender owns it.
#[derive(Debug, Clone, PartialEq, Eq)]
pub struct TXInput {
    pub txid: Vec<u8>,
    pub vout: i32,
    pub signature: Vec<u8>,
    pub pub_key: Vec<u8>,
}

/// A value paid to the holder of the key whose hash is `pub_key_hash`.
#[derive(Debug, Clone, PartialEq, Eq)]
pub struct TXOutput {
    pub value: u64,
    pub pub_key_hash: Vec<u8>,
}

#[derive(Debug, Clone, PartialEq, Eq)]
pub struct Transaction {
    pub id: Vec<u8>,
    pub vin: Vec<TXInput>,
    pub vout: Vec<TXOutput>,
}

pub struct InputModel {
    pub txid: Seq<u8>,
    pub vout: i32,
    pub signature: Seq<u8>,
    pub pub_key: Seq<u8>,
}

pub struct OutputModel {
    pub value: u64,
    pub pub_key_hash: Seq<u8>,
}

pub struct TxModel {
    pub id: Seq<u8>,
    pub vin: Seq<InputModel>,
    pub vout: Seq<OutputModel>,
}

impl View for TXInput {
    type V = InputModel;

    open spec fn view(&self) -> InputModel {
        InputModel {
            txid: self.txid@,
            vout: self.vout,
            signature: self.signature@,
            pub_key: self.pub_key@,
        }
    }
}

impl View for TXOutput {
    type V = OutputModel;

    open spec fn view(&self) -> OutputModel {
        OutputModel { value: self.value, pub_key_hash: self.pub_key_hash@ }
    }
}

impl View for Transaction {
    type V = TxModel;

    open spec fn view(&self) -> TxModel {
        TxModel {
            id: self.id@,
            vin: self.vin@.map_values(|i: TXInput| i@),
            vout: self.vout@.map_values(|o: TXOutput| o@),
        }
    }
}

pub open spec fn txs_view(v: Seq<Transaction>) -> Seq<TxModel> {
    v.map_values(|t: Transaction| t@)
}

pub open spec fn enc_input(i: InputModel) -> Seq<u8> {
    framed(i.txid) + le_bytes((i.vout + 0x8000_0000) as nat, 4) + framed(i.signature) + framed(i.pub_key)
}

pub open spec fn enc_inputs(s: Seq<InputModel>) -> Seq<u8>
    decreases s.len(),
{
    if s.len() == 0 {
        Seq::empty()
    } else {
        enc_inputs(s.drop_last()) + enc_input(s.last())
    }
}

pub open spec fn enc_output(o: OutputModel) -> Seq<u8> {
    le_bytes(o.value as nat, 8) + framed(o.pub_key_hash)
}

pub open spec fn enc_outputs(s: Seq<OutputModel>) -> Seq<u8>
    decreases s.len(),
{
    if s.len() == 0 {
        Seq::empty()
    } else {
        enc_outputs(s.drop_last()) + enc_output(s.last())
    }
}

/// The canonical bytes of a transaction.
pub open spec fn enc_tx(t: TxModel) -> Seq<u8> {
    framed(t.id) + le_bytes(t.vin.len(), 8) + enc_inputs(t.vin) + le_bytes(t.vout.len(), 8)
        + enc_outputs(t.vout)
}

/// The id of a transaction: the digest of its bytes with the id left empty.
pub open spec fn tx_id_of(t: TxModel) -> Seq<u8> {
    sha256_of(enc_tx(TxModel { id: Seq::empty(), ..t }))
}

/// The coinbase paying the reward to `pkh`, with `data` in place of the signature.
pub open spec fn coinbase_model(pkh: Seq<u8>, data: Seq<u8>) -> TxModel {
    let base = TxModel {
        id: Seq::empty(),
        vin: seq![InputModel { txid: Seq::empty(), vout: COINBASE_VOUT, signature: data, pub_key: Seq::empty() }],
        vout: seq![OutputModel { value: SUBSIDY, pub_key_hash: pkh }],
    };
    TxModel { id: tx_id_of(base), ..base }
}

pub open spec fn is_coinbase_model(t: TxModel) -> bool {
    t.vin.len() == 1 && t.vin[0].txid.len() == 0 && t.vin[0].vout == COINBASE_VOUT
}

pub open spec fn sum_values(s: Seq<OutputModel>) -> int
    decreases s.len(),
{
    if s.len() == 0 {
        0
    } else {
        sum_values(s.drop_last()) + s.last().value
    }
}

pub fn copy_bytes(b: &[u8]) -> (r: Vec<u8>)
    ensures
        r@ == b@,
{
    let mut r: Vec<u8> = Vec::new();
    let mut i: usize = 0;
    while i < b.len()
        invariant
            i <= b@.len(),
            r@ == b@.subrange(0, i as int),
        decreases b@.len() - i,
    {
        r.push(b[i]);
        assert(b@.subrange(0, i + 1) == b@.subrange(0, i as int).push(b@[i as int]));
        i = i + 1;
    }
    assert(b@.subrange(0, b@.len() as int) == b@);
    r
}

pub fn bytes_eq(a: &[u8], b: &[u8]) -> (r: bool)
    ensures
        r == (a@ == b@),
{
    if a.len() != b.len() {
        return false;
    }
    let mut i: usize = 0;
    while i < a.len()
        invariant
            i <= a@.len(),
            a@.len() == b@.len(),
            forall|j: int| 0 <= j < i ==> a@[j] == b@[j],
        decreases a@.len() - i,
    {
        if a[i] != b[i] {
            return false;
        }
        i = i + 1;
    }
    assert(a@ =~= b@);
    true
}

impl TXInput {
    pub fn copy(&self) -> (r: TXInput)
        ensures
            r@ == self@,
    {
        TXInput {
            txid: copy_bytes(&self.txid),
            vout: self.vout,
            signature: copy_bytes(&self.signature),
            pub_key: copy_bytes(&self.pub_key),
        }
    }

    fn encode_into(&self, out: &mut Vec<u8>)
        ensures
            final(out)@ == old(out)@ + enc_input(self@),
    {
        push_framed(out, &self.txid);
        push_le(out, (self.vout as i64 + 0x8000_0000) as u64, 4);
        push_framed(out, &self.signature);
        push_framed(out, &self.pub_key);
    }
}

impl TXOutput {
    pub fn copy(&self) -> (r: TXOutput)
        ensures
            r@ == self@,
    {
        TXOutput { value: self.value, pub_key_hash: copy_bytes(&self.pub_key_hash) }
    }

    fn encode_into(&self, out: &mut Vec<u8>)
        ensures
            final(out)@ == old(out)@ + enc_output(self@),
    {
        push_le(out, self.value, 8);
        push_framed(out, &self.pub_key_hash);
    }
}

impl Transaction {
    /// Is this the reward-minting transaction of a block?
    pub fn is_coinbase(&self) -> (r: bool)
        ensures
            r == is_coinbase_model(self@),
    {
        self.vin.len() == 1 && self.vin[0].txid.len() == 0 && self.vin[0].vout == COINBASE_VOUT
    }

    pub fn copy(&self) -> (r: Transaction)
        ensures
            r@ == self@,
    {
        let mut vin: Vec<TXInput> = Vec::new();
        let mut i: usize = 0;
        while i < self.vin.len()
            invariant
                i <= self.vin@.len(),
                vin@.len() == i,
                forall|j: int| 0 <= j < i ==> vin@[j]@ == self.vin@[j]@,
            decreases self.vin@.len() - i,
        {
            vin.push(self.vin[i].copy());
            i = i + 1;
        }
        let mut vout: Vec<TXOutput> = Vec::new();
        let mut k: usize = 0;
        while k < self.vout.len()
            invariant
                k <= self.vout@.len(),
                vout@.len() == k,
                forall|j: int| 0 <= j < k ==> vout@[j]@ == self.vout@[j]@,
            decreases self.vout@.len() - k,
        {
            vout.push(self.vout[k].copy());
            k = k + 1;
        }
        let r = Transaction { id: copy_bytes(&self.id), vin, vout };
        assert(r@.vin =~= self@.vin);
        assert(r@.vout =~= self@.vout);
        r
    }

    /// The canonical bytes of this transaction.
    pub fn serialize(&self) -> (r: Vec<u8>)
        ensures
            r@ == enc_tx(self@),
    {
        let mut out: Vec<u8> = Vec::new();
        push_framed(&mut out, &self.id);
        push_le(&mut out, self.vin.len() as u64, 8);
        let ghost base = out@;
        let ghost vs = self@.vin;
        let mut i: usize = 0;
        while i < self.vin.len()
            invariant
                i <= self.vin@.len(),
                vs == self@.vin,
                out@ == base + enc_inputs(vs.subrange(0, i as int)),
            decreases self.vin@.len() - i,
        {
            self.vin[i].encode_into(&mut out);
            assert(vs.subrange(0, i + 1).drop_last() == vs.subrange(0, i as int));
            i = i + 1;
        }
        assert(vs.subrange(0, vs.len() as int) == vs);
        push_le(&mut out, self.vout.len() as u64, 8);
        let ghost base2 = out@;
        let ghost os = self@.vout;
        let mut k: usize = 0;
        while k < self.vout.len()
            invariant
                k <= self.vout@.len(),
                os == self@.vout,
                out@ == base2 + enc_outputs(os.subrange(0, k as int)),
            decreases self.vout@.len() - k,
        {
            self.vout[k].encode_into(&mut out);
            assert(os.subrange(0, k + 1).drop_last() == os.subrange(0, k as int));
            k = k + 1;
        }
        assert(os.subrange(0, os.len() as int) == os);
        out
    }

    /// The id this transaction should carry: the digest of its bytes with the id left empty.
    pub fn hash(&self) -> (r: Vec<u8>)
        ensures
            r@ == tx_id_of(self@),
    {
        let mut t = self.copy();
        t.id = Vec::new();
        assert(t@ == TxModel { id: Seq::empty(), ..self@ });
        let bytes = t.serialize();
        sha256(&bytes)
    }

    /// The coinbase transaction paying the block reward to `pub_key_hash`; `data` fills the
    /// place of the signature.
    pub fn new_coinbase(pub_key_hash: &[u8], data: &[u8]) -> (r: Transaction)
        ensures
            r@ == coinbase_model(pub_key_hash@, data@),
            is_coinbase_model(r@),
            r@.vin[0].signature == data@,
            r@.vout.len() == 1,
            r@.vout[0] == (OutputModel { value: SUBSIDY, pub_key_hash: pub_key_hash@ }),
            r@.id == tx_id_of(r@),
    {
        let input = TXInput {
            txid: Vec::new(),
            vout: COINBASE_VOUT,
            signature: copy_bytes(data),
            pub_key: Vec::new(),
        };
        let output = TXOutput { value: SUBSIDY, pub_key_hash: copy_bytes(pub_key_hash) };
        let mut tx = Transaction { id: Vec::new(), vin: vec![input], vout: vec![output] };
        assert(tx@.vin =~= coinbase_model(pub_key_hash@, data@).vin);
        assert(tx@.vout =~= coinbase_model(pub_key_hash@, data@).vout);
        let id = tx.hash();
        tx.id = id;
        assert(tx@ == TxModel { id: tx@.id, ..tx@ });
        assert(tx@.vin =~= coinbase_model(pub_key_hash@, data@).vin);
        assert(tx@.vout =~= coinbase_model(pub_key_hash@, data@).vout);
        tx
    }
}

} // verus!
