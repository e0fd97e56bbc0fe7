use crate::block::{enc_tx_list, pow_hash, Block, BlockModel};
use crate::encoding::{
    framed, le_bytes, lemma_le_bytes_injective, lemma_le_bytes_len, pow256, push_framed, push_le,
    read_le,
};
use crate::transaction::{
    enc_input, enc_inputs, enc_output, enc_outputs, enc_tx, tx_id_of, txs_view, InputModel,
    OutputModel, TXInput, TXOutput, Transaction, TxModel,
};
use vstd::prelude::*;

verus! {

/// Does `b` hold `x` at `pos`?
pub open spec fn at(b: Seq<u8>, pos: int, x: Seq<u8>) -> bool {
    0 <= pos && pos + x.len() <= b.len() && b.subrange(pos, pos + x.len()) == x
}

pub open spec fn inputs_view(v: Seq<TXInput>) -> Seq<InputModel> {
    v.map_values(|i: TXInput| i@)
}

pub open spec fn outputs_view(v: Seq<TXOutput>) -> Seq<OutputModel> {
    v.map_values(|o: TXOutput| o@)
}

proof fn lemma_at_concat(b: Seq<u8>, pos: int, x: Seq<u8>, y: Seq<u8>)
    ensures
        at(b, pos, x + y) <==> (at(b, pos, x) && at(b, pos + x.len(), y)),
{
    let xy = x + y;
    if at(b, pos, xy) {
        assert(b.subrange(pos, pos + x.len()) =~= xy.subrange(0, x.len() as int));
        assert(xy.subrange(0, x.len() as int) =~= x);
        assert(b.subrange(pos + x.len(), pos + x.len() + y.len()) =~= xy.subrange(
            x.len() as int,
            xy.len() as int,
        ));
        assert(xy.subrange(x.len() as int, xy.len() as int) =~= y);
    }
    if at(b, pos, x) && at(b, pos + x.len(), y) {
        assert(b.subrange(pos, pos + xy.len()) =~= b.subrange(pos, pos + x.len()) + b.subrange(
            pos + x.len(),
            pos + x.len() + y.len(),
        ));
        assert(b.subrange(pos, pos + xy.len()) =~= xy);
    }
}

proof fn lemma_pow256_8()
    ensures
        pow256(8) == 0x1_0000_0000_0000_0000,
        pow256(4) == 0x1_0000_0000,
{
    reveal_with_fuel(pow256, 9);
}

proof fn lemma_inputs_concat(a: Seq<InputModel>, c: Seq<InputModel>)
    ensures
        enc_inputs(a + c) == enc_inputs(a) + enc_inputs(c),
    decreases c.len(),
{
    if c.len() == 0 {
        assert(a + c == a);
    } else {
        assert((a + c).drop_last() == a + c.drop_last());
        lemma_inputs_concat(a, c.drop_last());
    }
}

proof fn lemma_outputs_concat(a: Seq<OutputModel>, c: Seq<OutputModel>)
    ensures
        enc_outputs(a + c) == enc_outputs(a) + enc_outputs(c),
    decreases c.len(),
{
    if c.len() == 0 {
        assert(a + c == a);
    } else {
        assert((a + c).drop_last() == a + c.drop_last());
        lemma_outputs_concat(a, c.drop_last());
    }
}

proof fn lemma_inputs_len(s: Seq<InputModel>)
    ensures
        enc_inputs(s).len() >= s.len(),
    decreases s.len(),
{
    if s.len() > 0 {
        lemma_inputs_len(s.drop_last());
        lemma_le_bytes_len(s.last().txid.len() as nat, 8);
    }
}

proof fn lemma_outputs_len(s: Seq<OutputModel>)
    ensures
        enc_outputs(s).len() >= s.len(),
    decreases s.len(),
{
    if s.len() > 0 {
        lemma_outputs_len(s.drop_last());
        lemma_le_bytes_len(s.last().value as nat, 8);
    }
}

/// Item `i` of `s` sits right after the encoding of the items before it.
proof fn lemma_inputs_split(s: Seq<InputModel>, i: int)
    requires
        0 <= i < s.len(),
    ensures
        enc_inputs(s) == enc_inputs(s.subrange(0, i)) + enc_input(s[i]) + enc_inputs(
            s.subrange(i + 1, s.len() as int),
        ),
{
    let a = s.subrange(0, i);
    let c = s.subrange(i + 1, s.len() as int);
    assert(s == a.push(s[i]) + c);
    lemma_inputs_concat(a.push(s[i]), c);
    assert(a.push(s[i]).drop_last() == a);
}

proof fn lemma_outputs_split(s: Seq<OutputModel>, i: int)
    requires
        0 <= i < s.len(),
    ensures
        enc_outputs(s) == enc_outputs(s.subrange(0, i)) + enc_output(s[i]) + enc_outputs(
            s.subrange(i + 1, s.len() as int),
        ),
{
    let a = s.subrange(0, i);
    let c = s.subrange(i + 1, s.len() as int);
    assert(s == a.push(s[i]) + c);
    lemma_outputs_concat(a.push(s[i]), c);
    assert(a.push(s[i]).drop_last() == a);
}

fn read_u64(b: &[u8], pos: usize, Ghost(target): Ghost<Option<nat>>) -> (r: Option<u64>)
    requires
        pos <= b@.len(),
        target is Some ==> at(b@, pos as int, le_bytes(target->Some_0, 8)) && target->Some_0
            < pow256(8),
    ensures
        r is Some ==> pos + 8 <= b@.len() && at(b@, pos as int, le_bytes(r->Some_0 as nat, 8)),
        target is Some ==> r == Some(target->Some_0 as u64),
{
    proof {
        if target is Some {
            lemma_le_bytes_len(target->Some_0, 8);
        }
    }
    if b.len() - pos < 8 {
        return None;
    }
    let v = read_le(b, pos, 8);
    proof {
        lemma_le_bytes_len(v as nat, 8);
        if target is Some {
            lemma_le_bytes_injective(v as nat, target->Some_0, 8);
        }
    }
    Some(v)
}

fn read_framed(b: &[u8], pos: usize, Ghost(target): Ghost<Option<Seq<u8>>>) -> (r: Option<(Vec<u8>, usize)>)
    requires
        pos <= b@.len(),
        target is Some ==> at(b@, pos as int, framed(target->Some_0)),
    ensures
        r matches Some((x, p)) ==> p == pos + framed(x@).len() && at(b@, pos as int, framed(x@)),
        target is Some ==> (r matches Some((x, p)) && x@ == target->Some_0),
{
    let blen = b.len();
    proof {
        lemma_pow256_8();
        if target is Some {
            let t = target->Some_0;
            assert(t.len() <= blen);
            lemma_le_bytes_len(t.len() as nat, 8);
            lemma_at_concat(b@, pos as int, le_bytes(t.len() as nat, 8), t);
        }
    }
    let n = match read_u64(b, pos, Ghost(if target is Some { Some(target->Some_0.len() as nat) } else { None })) {
        Some(n) => n,
        None => return None,
    };
    let start = pos + 8;
    if ((b.len() - start) as u64) < n {
        return None;
    }
    let end = start + n as usize;
    let mut x: Vec<u8> = Vec::new();
    let mut i: usize = start;
    while i < end
        invariant
            start <= i <= end <= b@.len(),
            x@ == b@.subrange(start as int, i as int),
        decreases end - i,
    {
        x.push(b[i]);
        assert(b@.subrange(start as int, i + 1) == b@.subrange(start as int, i as int).push(b@[i as int]));
        i = i + 1;
    }
    proof {
        lemma_le_bytes_len(n as nat, 8);
        assert(x@.len() == n);
        lemma_at_concat(b@, pos as int, le_bytes(n as nat, 8), x@);
        if target is Some {
            assert(x@ == target->Some_0);
        }
    }
    Some((x, end))
}

fn parse_input(b: &[u8], pos: usize, Ghost(target): Ghost<Option<InputModel>>) -> (r: Option<(TXInput, usize)>)
    requires
        pos <= b@.len(),
        target is Some ==> at(b@, pos as int, enc_input(target->Some_0)),
    ensures
        r matches Some((i, p)) ==> p == pos + enc_input(i@).len() && at(b@, pos as int, enc_input(i@)),
        target is Some ==> (r matches Some((i, p)) && i@ == target->Some_0),
{
    let ghost t = target->Some_0;
    let ghost a = framed(t.txid);
    let ghost v = le_bytes((t.vout + 0x8000_0000) as nat, 4);
    let ghost sg = framed(t.signature);
    let ghost pk = framed(t.pub_key);
    proof {
        lemma_pow256_8();
        lemma_le_bytes_len((t.vout + 0x8000_0000) as nat, 4);
        if target is Some {
            assert(enc_input(t) == ((a + v) + sg) + pk);
            lemma_at_concat(b@, pos as int, (a + v) + sg, pk);
            lemma_at_concat(b@, pos as int, a + v, sg);
            lemma_at_concat(b@, pos as int, a, v);
        }
    }
    let (txid, next1) = match read_framed(b, pos, Ghost(if target is Some { Some(t.txid) } else { None })) {
        Some(x) => x,
        None => return None,
    };
    if b.len() - next1 < 4 {
        return None;
    }
    let w = read_le(b, next1, 4);
    let vout = (w as i64 - 0x8000_0000) as i32;
    let next2 = next1 + 4;
    proof {
        lemma_le_bytes_len(w as nat, 4);
        assert((vout + 0x8000_0000) as nat == w as nat);
        if target is Some {
            lemma_le_bytes_injective(w as nat, (t.vout + 0x8000_0000) as nat, 4);
        }
    }
    let (signature, next3) = match read_framed(b, next2, Ghost(if target is Some { Some(t.signature) } else { None })) {
        Some(x) => x,
        None => return None,
    };
    let (pub_key, next4) = match read_framed(b, next3, Ghost(if target is Some { Some(t.pub_key) } else { None })) {
        Some(x) => x,
        None => return None,
    };
    let input = TXInput { txid, vout, signature, pub_key };
    proof {
        let ia = framed(input@.txid);
        let iv = le_bytes((input@.vout + 0x8000_0000) as nat, 4);
        let isg = framed(input@.signature);
        let ipk = framed(input@.pub_key);
        assert(enc_input(input@) == ((ia + iv) + isg) + ipk);
        lemma_at_concat(b@, pos as int, ia, iv);
        lemma_at_concat(b@, pos as int, ia + iv, isg);
        lemma_at_concat(b@, pos as int, (ia + iv) + isg, ipk);
    }
    Some((input, next4))
}

fn parse_output(b: &[u8], pos: usize, Ghost(target): Ghost<Option<OutputModel>>) -> (r: Option<(TXOutput, usize)>)
    requires
        pos <= b@.len(),
        target is Some ==> at(b@, pos as int, enc_output(target->Some_0)),
    ensures
        r matches Some((o, p)) ==> p == pos + enc_output(o@).len() && at(b@, pos as int, enc_output(o@)),
        target is Some ==> (r matches Some((o, p)) && o@ == target->Some_0),
{
    let blen = b.len();
    let ghost t = target->Some_0;
    proof {
        lemma_pow256_8();
        lemma_le_bytes_len(t.value as nat, 8);
        if target is Some {
            lemma_at_concat(b@, pos as int, le_bytes(t.value as nat, 8), framed(t.pub_key_hash));
        }
    }
    let value = match read_u64(b, pos, Ghost(if target is Some { Some(t.value as nat) } else { None })) {
        Some(v) => v,
        None => return None,
    };
    let (pub_key_hash, next2) = match read_framed(b, pos + 8, Ghost(if target is Some { Some(t.pub_key_hash) } else { None })) {
        Some(x) => x,
        None => return None,
    };
    let out = TXOutput { value, pub_key_hash };
    proof {
        lemma_le_bytes_len(value as nat, 8);
        lemma_at_concat(b@, pos as int, le_bytes(value as nat, 8), framed(out@.pub_key_hash));
    }
    Some((out, next2))
}

fn parse_inputs(b: &[u8], pos: usize, count: u64, Ghost(target): Ghost<Option<Seq<InputModel>>>) -> (r:
    Option<(Vec<TXInput>, usize)>)
    requires
        pos <= b@.len(),
        target is Some ==> target->Some_0.len() == count && at(b@, pos as int, enc_inputs(target->Some_0)),
    ensures
        r matches Some((v, p)) ==> v@.len() == count && p == pos + enc_inputs(inputs_view(v@)).len()
            && at(b@, pos as int, enc_inputs(inputs_view(v@))),
        target is Some ==> (r matches Some((v, p)) && inputs_view(v@) == target->Some_0),
{
    let ghost ts = target->Some_0;
    let mut v: Vec<TXInput> = Vec::new();
    let mut p: usize = pos;
    let mut i: u64 = 0;
    assert(inputs_view(v@) =~= Seq::<InputModel>::empty());
    assert(b@.subrange(pos as int, pos as int) =~= Seq::<u8>::empty());
    while i < count
        invariant
            i <= count,
            pos <= p <= b@.len(),
            v@.len() == i,
            p == pos + enc_inputs(inputs_view(v@)).len(),
            at(b@, pos as int, enc_inputs(inputs_view(v@))),
            target is Some ==> ts == target->Some_0 && ts.len() == count && at(b@, pos as int, enc_inputs(ts))
                && inputs_view(v@) == ts.subrange(0, i as int),
        decreases count - i,
    {
        proof {
            if target is Some {
                lemma_inputs_split(ts, i as int);
                let e = enc_inputs(ts.subrange(0, i as int));
                let rest = enc_inputs(ts.subrange(i + 1, ts.len() as int));
                lemma_at_concat(b@, pos as int, e + enc_input(ts[i as int]), rest);
                lemma_at_concat(b@, pos as int, e, enc_input(ts[i as int]));
            }
        }
        let (input, np) = match parse_input(b, p, Ghost(if target is Some { Some(ts[i as int]) } else { None })) {
            Some(x) => x,
            None => return None,
        };
        let ghost before = inputs_view(v@);
        v.push(input);
        proof {
            assert(inputs_view(v@) =~= before.push(input@));
            assert(inputs_view(v@).drop_last() == before);
            lemma_at_concat(b@, pos as int, enc_inputs(before), enc_input(input@));
            if target is Some {
                assert(ts.subrange(0, i + 1) =~= ts.subrange(0, i as int).push(ts[i as int]));
            }
        }
        p = np;
        i = i + 1;
    }
    proof {
        if target is Some {
            assert(ts.subrange(0, ts.len() as int) == ts);
        }
    }
    Some((v, p))
}

fn parse_outputs(b: &[u8], pos: usize, count: u64, Ghost(target): Ghost<Option<Seq<OutputModel>>>) -> (r:
    Option<(Vec<TXOutput>, usize)>)
    requires
        pos <= b@.len(),
        target is Some ==> target->Some_0.len() == count && at(b@, pos as int, enc_outputs(target->Some_0)),
    ensures
        r matches Some((v, p)) ==> v@.len() == count && p == pos + enc_outputs(outputs_view(v@)).len()
            && at(b@, pos as int, enc_outputs(outputs_view(v@))),
        target is Some ==> (r matches Some((v, p)) && outputs_view(v@) == target->Some_0),
{
    let ghost ts = target->Some_0;
    let mut v: Vec<TXOutput> = Vec::new();
    let mut p: usize = pos;
    let mut i: u64 = 0;
    assert(outputs_view(v@) =~= Seq::<OutputModel>::empty());
    assert(b@.subrange(pos as int, pos as int) =~= Seq::<u8>::empty());
    while i < count
        invariant
            i <= count,
            pos <= p <= b@.len(),
            v@.len() == i,
            p == pos + enc_outputs(outputs_view(v@)).len(),
            at(b@, pos as int, enc_outputs(outputs_view(v@))),
            target is Some ==> ts == target->Some_0 && ts.len() == count && at(b@, pos as int, enc_outputs(ts))
                && outputs_view(v@) == ts.subrange(0, i as int),
        decreases count - i,
    {
        proof {
            if target is Some {
                lemma_outputs_split(ts, i as int);
                let e = enc_outputs(ts.subrange(0, i as int));
                let rest = enc_outputs(ts.subrange(i + 1, ts.len() as int));
                lemma_at_concat(b@, pos as int, e + enc_output(ts[i as int]), rest);
                lemma_at_concat(b@, pos as int, e, enc_output(ts[i as int]));
            }
        }
        let (out, np) = match parse_output(b, p, Ghost(if target is Some { Some(ts[i as int]) } else { None })) {
            Some(x) => x,
            None => return None,
        };
        let ghost before = outputs_view(v@);
        v.push(out);
        proof {
            assert(outputs_view(v@) =~= before.push(out@));
            assert(outputs_view(v@).drop_last() == before);
            lemma_at_concat(b@, pos as int, enc_outputs(before), enc_output(out@));
            if target is Some {
                assert(ts.subrange(0, i + 1) =~= ts.subrange(0, i as int).push(ts[i as int]));
            }
        }
        p = np;
        i = i + 1;
    }
    proof {
        if target is Some {
            assert(ts.subrange(0, ts.len() as int) == ts);
        }
    }
    Some((v, p))
}

impl Transaction {
    /// Reads a transaction from its canonical bytes. It succeeds exactly on the bytes of some
    /// transaction, and what it reads encodes back to those bytes.
    #[verifier::rlimit(40)]
    pub fn deserialize(b: &[u8]) -> (r: Option<Transaction>)
        ensures
            r is Some ==> enc_tx(r->Some_0@) == b@,
            (exists|t: TxModel| enc_tx(t) == b@) ==> r is Some,
    {
        let blen = b.len();
        let ghost target: Option<TxModel> = if exists|t: TxModel| enc_tx(t) == b@ {
            Some(choose|t: TxModel| enc_tx(t) == b@)
        } else {
            None
        };
        let ghost t = target->Some_0;
        let ghost f = framed(t.id);
        let ghost l1 = le_bytes(t.vin.len(), 8);
        let ghost ei = enc_inputs(t.vin);
        let ghost l2 = le_bytes(t.vout.len(), 8);
        let ghost eo = enc_outputs(t.vout);
        proof {
            lemma_pow256_8();
            lemma_le_bytes_len(t.vin.len(), 8);
            lemma_le_bytes_len(t.vout.len(), 8);
            if target is Some {
                assert(b@.subrange(0, b@.len() as int) == b@);
                assert(at(b@, 0, enc_tx(t)));
                lemma_at_concat(b@, 0, f + l1 + ei + l2, eo);
                lemma_at_concat(b@, 0, f + l1 + ei, l2);
                lemma_at_concat(b@, 0, f + l1, ei);
                lemma_at_concat(b@, 0, f, l1);
                lemma_inputs_len(t.vin);
                lemma_outputs_len(t.vout);
                assert(t.vin.len() <= blen);
                assert(t.vout.len() <= blen);
            }
        }
        let (id, next1) = match read_framed(b, 0, Ghost(if target is Some { Some(t.id) } else { None })) {
            Some(x) => x,
            None => return None,
        };
        let n_in = match read_u64(b, next1, Ghost(if target is Some { Some(t.vin.len()) } else { None })) {
            Some(n) => n,
            None => return None,
        };
        let (vin, next2) = match parse_inputs(b, next1 + 8, n_in, Ghost(if target is Some { Some(t.vin) } else { None })) {
            Some(x) => x,
            None => return None,
        };
        let n_out = match read_u64(b, next2, Ghost(if target is Some { Some(t.vout.len()) } else { None })) {
            Some(n) => n,
            None => return None,
        };
        let (vout, next3) = match parse_outputs(b, next2 + 8, n_out, Ghost(if target is Some { Some(t.vout) } else { None })) {
            Some(x) => x,
            None => return None,
        };
        if next3 != blen {
            return None;
        }
        let tx = Transaction { id, vin, vout };
        proof {
            assert(tx@.vin =~= inputs_view(tx.vin@));
            assert(tx@.vout =~= outputs_view(tx.vout@));
            let rf = framed(tx@.id);
            let r1 = le_bytes(tx@.vin.len(), 8);
            let ri = enc_inputs(tx@.vin);
            let r2 = le_bytes(tx@.vout.len(), 8);
            let ro = enc_outputs(tx@.vout);
            lemma_le_bytes_len(tx@.vin.len(), 8);
            lemma_le_bytes_len(tx@.vout.len(), 8);
            lemma_at_concat(b@, 0, rf, r1);
            lemma_at_concat(b@, 0, rf + r1, ri);
            lemma_at_concat(b@, 0, rf + r1 + ri, r2);
            lemma_at_concat(b@, 0, rf + r1 + ri + r2, ro);
            assert(enc_tx(tx@) == rf + r1 + ri + r2 + ro);
            assert(b@.subrange(0, b@.len() as int) == b@);
        }
        Some(tx)
    }
}

/// The canonical bytes of a transaction after its id.
pub open spec fn enc_tx_rest(t: TxModel) -> Seq<u8> {
    le_bytes(t.vin.len(), 8) + enc_inputs(t.vin) + le_bytes(t.vout.len(), 8) + enc_outputs(t.vout)
}

proof fn lemma_enc_tx_split(t: TxModel)
    ensures
        enc_tx(t) == framed(t.id) + enc_tx_rest(t),
{
    assert(enc_tx(t) =~= framed(t.id) + enc_tx_rest(t));
}

/// A length-framed string is read back whole from the front of any longer sequence.
proof fn lemma_framed_prefix(x: Seq<u8>, r1: Seq<u8>, y: Seq<u8>, r2: Seq<u8>)
    requires
        framed(x) + r1 == framed(y) + r2,
        x.len() < pow256(8),
        y.len() < pow256(8),
    ensures
        x == y,
        r1 == r2,
{
    let a = framed(x) + r1;
    let b = framed(y) + r2;
    lemma_le_bytes_len(x.len(), 8);
    lemma_le_bytes_len(y.len(), 8);
    assert(le_bytes(x.len(), 8) == a.subrange(0, 8));
    assert(le_bytes(y.len(), 8) == b.subrange(0, 8));
    lemma_le_bytes_injective(x.len(), y.len(), 8);
    let n = x.len() as int;
    assert(x == a.subrange(8, 8 + n));
    assert(y == b.subrange(8, 8 + n));
    assert(r1 == a.subrange(8 + n, a.len() as int));
    assert(r2 == b.subrange(8 + n, b.len() as int));
}

/// Two transactions with the same canonical bytes carry the same id and have the same
/// recomputed id; with `deserialize`, which reads back some transaction from the bytes of
/// every transaction, a serialize/deserialize round trip keeps both.
pub proof fn lemma_round_trip_keeps_id(t: TxModel, u: TxModel)
    requires
        enc_tx(u) == enc_tx(t),
        t.id.len() < pow256(8),
        u.id.len() < pow256(8),
    ensures
        u.id == t.id,
        tx_id_of(u) == tx_id_of(t),
{
    lemma_enc_tx_split(t);
    lemma_enc_tx_split(u);
    lemma_framed_prefix(t.id, enc_tx_rest(t), u.id, enc_tx_rest(u));
    let e = Seq::<u8>::empty();
    let te = TxModel { id: e, ..t };
    let ue = TxModel { id: e, ..u };
    lemma_enc_tx_split(te);
    lemma_enc_tx_split(ue);
    assert(enc_tx_rest(te) == enc_tx_rest(t));
    assert(enc_tx_rest(ue) == enc_tx_rest(u));
}

/// The canonical bytes of a block.
pub open spec fn enc_block(b: BlockModel) -> Seq<u8> {
    le_bytes(b.timestamp as nat, 8) + framed(b.prev_block_hash) + framed(b.hash) + le_bytes(
        b.nonce as nat,
        8,
    ) + le_bytes(b.height as nat, 8) + le_bytes(b.transactions.len(), 8) + enc_tx_list(
        b.transactions,
    )
}

proof fn lemma_tx_list_concat(a: Seq<TxModel>, c: Seq<TxModel>)
    ensures
        enc_tx_list(a + c) == enc_tx_list(a) + enc_tx_list(c),
    decreases c.len(),
{
    if c.len() == 0 {
        assert(a + c == a);
    } else {
        assert((a + c).drop_last() == a + c.drop_last());
        lemma_tx_list_concat(a, c.drop_last());
    }
}

proof fn lemma_tx_list_len(s: Seq<TxModel>)
    ensures
        enc_tx_list(s).len() >= s.len(),
    decreases s.len(),
{
    if s.len() > 0 {
        lemma_tx_list_len(s.drop_last());
        lemma_le_bytes_len(enc_tx(s.last()).len() as nat, 8);
    }
}

proof fn lemma_le8_prefix(x: nat, r1: Seq<u8>, y: nat, r2: Seq<u8>)
    requires
        le_bytes(x, 8) + r1 == le_bytes(y, 8) + r2,
        x < pow256(8),
        y < pow256(8),
    ensures
        x == y,
        r1 == r2,
{
    let a = le_bytes(x, 8) + r1;
    lemma_le_bytes_len(x, 8);
    lemma_le_bytes_len(y, 8);
    assert(le_bytes(x, 8) == a.subrange(0, 8));
    assert(le_bytes(y, 8) == (le_bytes(y, 8) + r2).subrange(0, 8));
    lemma_le_bytes_injective(x, y, 8);
    assert(r1 == a.subrange(8, a.len() as int));
    assert(r2 == (le_bytes(y, 8) + r2).subrange(8, a.len() as int));
}

fn parse_tx_list(b: &[u8], pos: usize, count: u64, Ghost(target): Ghost<Option<Seq<TxModel>>>) -> (r:
    Option<(Vec<Transaction>, usize)>)
    requires
        pos <= b@.len(),
        target is Some ==> target->Some_0.len() == count && at(b@, pos as int, enc_tx_list(target->Some_0)),
    ensures
        r matches Some((v, p)) ==> v@.len() == count && p == pos + enc_tx_list(txs_view(v@)).len()
            && at(b@, pos as int, enc_tx_list(txs_view(v@))),
        target is Some ==> (r matches Some((v, p)) && enc_tx_list(txs_view(v@)) == enc_tx_list(target->Some_0)),
{
    let ghost ts = target->Some_0;
    let mut v: Vec<Transaction> = Vec::new();
    let mut p: usize = pos;
    let mut i: u64 = 0;
    assert(txs_view(v@) =~= Seq::<TxModel>::empty());
    assert(b@.subrange(pos as int, pos as int) =~= Seq::<u8>::empty());
    while i < count
        invariant
            i <= count,
            pos <= p <= b@.len(),
            v@.len() == i,
            p == pos + enc_tx_list(txs_view(v@)).len(),
            at(b@, pos as int, enc_tx_list(txs_view(v@))),
            target is Some ==> ts == target->Some_0 && ts.len() == count && at(b@, pos as int, enc_tx_list(ts))
                && enc_tx_list(txs_view(v@)) == enc_tx_list(ts.subrange(0, i as int)),
        decreases count - i,
    {
        proof {
            if target is Some {
                let a = ts.subrange(0, i as int);
                let c = ts.subrange(i + 1, ts.len() as int);
                assert(ts == a.push(ts[i as int]) + c);
                lemma_tx_list_concat(a.push(ts[i as int]), c);
                assert(a.push(ts[i as int]).drop_last() == a);
                lemma_at_concat(b@, pos as int, enc_tx_list(a) + framed(enc_tx(ts[i as int])), enc_tx_list(c));
                lemma_at_concat(b@, pos as int, enc_tx_list(a), framed(enc_tx(ts[i as int])));
            }
        }
        let (bytes, np) = match read_framed(b, p, Ghost(if target is Some { Some(enc_tx(ts[i as int])) } else { None })) {
            Some(x) => x,
            None => return None,
        };
        let tx = match Transaction::deserialize(&bytes) {
            Some(t) => t,
            None => return None,
        };
        let ghost before = txs_view(v@);
        v.push(tx);
        proof {
            assert(txs_view(v@) =~= before.push(tx@));
            assert(txs_view(v@).drop_last() == before);
            lemma_at_concat(b@, pos as int, enc_tx_list(before), framed(enc_tx(tx@)));
            if target is Some {
                let a = ts.subrange(0, i as int);
                assert(ts.subrange(0, i + 1) == a.push(ts[i as int]));
                assert(a.push(ts[i as int]).drop_last() == a);
            }
        }
        p = np;
        i = i + 1;
    }
    proof {
        if target is Some {
            assert(ts.subrange(0, ts.len() as int) == ts);
        }
    }
    Some((v, p))
}

impl Block {
    /// The canonical bytes of this block.
    pub fn serialize(&self) -> (r: Vec<u8>)
        ensures
            r@ == enc_block(self@),
    {
        let mut out: Vec<u8> = Vec::new();
        push_le(&mut out, self.timestamp, 8);
        push_framed(&mut out, &self.prev_block_hash);
        push_framed(&mut out, &self.hash);
        push_le(&mut out, self.nonce, 8);
        push_le(&mut out, self.height, 8);
        push_le(&mut out, self.transactions.len() as u64, 8);
        let ghost base = out@;
        let ghost ts = self@.transactions;
        let mut i: usize = 0;
        while i < self.transactions.len()
            invariant
                i <= self.transactions@.len(),
                ts == self@.transactions,
                out@ == base + enc_tx_list(ts.subrange(0, i as int)),
            decreases self.transactions@.len() - i,
        {
            let bytes = self.transactions[i].serialize();
            push_framed(&mut out, &bytes);
            assert(ts.subrange(0, i + 1).drop_last() == ts.subrange(0, i as int));
            i = i + 1;
        }
        assert(ts.subrange(0, ts.len() as int) == ts);
        out
    }

    /// Reads a block from its canonical bytes. It succeeds exactly on the bytes of some block,
    /// and what it reads encodes back to those bytes.
    #[verifier::rlimit(40)]
    pub fn deserialize(b: &[u8]) -> (r: Option<Block>)
        ensures
            r is Some ==> enc_block(r->Some_0@) == b@,
            (exists|t: BlockModel| enc_block(t) == b@) ==> r is Some,
    {
        let blen = b.len();
        let ghost target: Option<BlockModel> = if exists|t: BlockModel| enc_block(t) == b@ {
            Some(choose|t: BlockModel| enc_block(t) == b@)
        } else {
            None
        };
        let ghost t = target->Some_0;
        let ghost c0 = le_bytes(t.timestamp as nat, 8);
        let ghost c1 = framed(t.prev_block_hash);
        let ghost c2 = framed(t.hash);
        let ghost c3 = le_bytes(t.nonce as nat, 8);
        let ghost c4 = le_bytes(t.height as nat, 8);
        let ghost c5 = le_bytes(t.transactions.len(), 8);
        let ghost c6 = enc_tx_list(t.transactions);
        proof {
            lemma_pow256_8();
            lemma_le_bytes_len(t.timestamp as nat, 8);
            lemma_le_bytes_len(t.nonce as nat, 8);
            lemma_le_bytes_len(t.height as nat, 8);
            lemma_le_bytes_len(t.transactions.len(), 8);
            if target is Some {
                assert(b@.subrange(0, b@.len() as int) == b@);
                assert(at(b@, 0, enc_block(t)));
                lemma_at_concat(b@, 0, c0 + c1 + c2 + c3 + c4 + c5, c6);
                lemma_at_concat(b@, 0, c0 + c1 + c2 + c3 + c4, c5);
                lemma_at_concat(b@, 0, c0 + c1 + c2 + c3, c4);
                lemma_at_concat(b@, 0, c0 + c1 + c2, c3);
                lemma_at_concat(b@, 0, c0 + c1, c2);
                lemma_at_concat(b@, 0, c0, c1);
                lemma_tx_list_len(t.transactions);
                assert(t.transactions.len() <= blen);
            }
        }
        let timestamp = match read_u64(b, 0, Ghost(if target is Some { Some(t.timestamp as nat) } else { None })) {
            Some(n) => n,
            None => return None,
        };
        let (prev_block_hash, next1) = match read_framed(b, 8, Ghost(if target is Some { Some(t.prev_block_hash) } else { None })) {
            Some(x) => x,
            None => return None,
        };
        let (hash, next2) = match read_framed(b, next1, Ghost(if target is Some { Some(t.hash) } else { None })) {
            Some(x) => x,
            None => return None,
        };
        let nonce = match read_u64(b, next2, Ghost(if target is Some { Some(t.nonce as nat) } else { None })) {
            Some(n) => n,
            None => return None,
        };
        let height = match read_u64(b, next2 + 8, Ghost(if target is Some { Some(t.height as nat) } else { None })) {
            Some(n) => n,
            None => return None,
        };
        let count = match read_u64(b, next2 + 16, Ghost(if target is Some { Some(t.transactions.len()) } else { None })) {
            Some(n) => n,
            None => return None,
        };
        let (transactions, next3) = match parse_tx_list(b, next2 + 24, count, Ghost(if target is Some { Some(t.transactions) } else { None })) {
            Some(x) => x,
            None => return None,
        };
        if next3 != blen {
            return None;
        }
        let block = Block { timestamp, transactions, prev_block_hash, hash, nonce, height };
        proof {
            let m = block@;
            let d0 = le_bytes(m.timestamp as nat, 8);
            let d1 = framed(m.prev_block_hash);
            let d2 = framed(m.hash);
            let d3 = le_bytes(m.nonce as nat, 8);
            let d4 = le_bytes(m.height as nat, 8);
            let d5 = le_bytes(m.transactions.len(), 8);
            let d6 = enc_tx_list(m.transactions);
            lemma_le_bytes_len(m.timestamp as nat, 8);
            lemma_le_bytes_len(m.nonce as nat, 8);
            lemma_le_bytes_len(m.height as nat, 8);
            lemma_le_bytes_len(m.transactions.len(), 8);
            lemma_at_concat(b@, 0, d0, d1);
            lemma_at_concat(b@, 0, d0 + d1, d2);
            lemma_at_concat(b@, 0, d0 + d1 + d2, d3);
            lemma_at_concat(b@, 0, d0 + d1 + d2 + d3, d4);
            lemma_at_concat(b@, 0, d0 + d1 + d2 + d3 + d4, d5);
            lemma_at_concat(b@, 0, d0 + d1 + d2 + d3 + d4 + d5, d6);
            assert(b@.subrange(0, b@.len() as int) == b@);
        }
        Some(block)
    }
}

/// Two blocks with the same canonical bytes carry the same stored hash, have the same
/// recomputed proof-of-work hash, and hold transactions with the same ids and recomputed ids; with `deserialize`, which reads back some block from the
/// bytes of every block, a serialize/deserialize round trip keeps both.
#[verifier::rlimit(60)]
pub proof fn lemma_block_round_trip_keeps_hash(b: BlockModel, u: BlockModel)
    requires
        enc_block(u) == enc_block(b),
        b.prev_block_hash.len() < pow256(8),
        u.prev_block_hash.len() < pow256(8),
        b.hash.len() < pow256(8),
        u.hash.len() < pow256(8),
        b.transactions.len() < pow256(8),
        u.transactions.len() < pow256(8),
        forall|i: int| 0 <= i < b.transactions.len() ==> (#[trigger] enc_tx(b.transactions[i])).len() < pow256(8),
        forall|i: int| 0 <= i < u.transactions.len() ==> (#[trigger] enc_tx(u.transactions[i])).len() < pow256(8),
    ensures
        u.hash == b.hash,
        pow_hash(u) == pow_hash(b),
        u.transactions.len() == b.transactions.len(),
        forall|i: int| 0 <= i < b.transactions.len() ==> #[trigger] same_ids(b.transactions[i], u.transactions[i]),
{
    lemma_pow256_8();
    let rb6 = enc_tx_list(b.transactions);
    let ru6 = enc_tx_list(u.transactions);
    let rb5 = le_bytes(b.transactions.len(), 8) + rb6;
    let ru5 = le_bytes(u.transactions.len(), 8) + ru6;
    let rb4 = le_bytes(b.height as nat, 8) + rb5;
    let ru4 = le_bytes(u.height as nat, 8) + ru5;
    let rb3 = le_bytes(b.nonce as nat, 8) + rb4;
    let ru3 = le_bytes(u.nonce as nat, 8) + ru4;
    let rb2 = framed(b.hash) + rb3;
    let ru2 = framed(u.hash) + ru3;
    let rb1 = framed(b.prev_block_hash) + rb2;
    let ru1 = framed(u.prev_block_hash) + ru2;
    assert(enc_block(b) =~= le_bytes(b.timestamp as nat, 8) + rb1);
    assert(enc_block(u) =~= le_bytes(u.timestamp as nat, 8) + ru1);
    lemma_le8_prefix(b.timestamp as nat, rb1, u.timestamp as nat, ru1);
    lemma_framed_prefix(b.prev_block_hash, rb2, u.prev_block_hash, ru2);
    lemma_framed_prefix(b.hash, rb3, u.hash, ru3);
    lemma_le8_prefix(b.nonce as nat, rb4, u.nonce as nat, ru4);
    lemma_le8_prefix(b.height as nat, rb5, u.height as nat, ru5);
    lemma_le8_prefix(b.transactions.len(), rb6, u.transactions.len(), ru6);
    lemma_tx_list_round_trip_keeps_ids(b.transactions, u.transactions);
}

proof fn lemma_tx_list_head(s1: Seq<TxModel>, s2: Seq<TxModel>)
    requires
        enc_tx_list(s1) == enc_tx_list(s2),
        s1.len() > 0,
        s2.len() > 0,
        enc_tx(s1[0]).len() < pow256(8),
        enc_tx(s2[0]).len() < pow256(8),
    ensures
        enc_tx(s1[0]) == enc_tx(s2[0]),
        enc_tx_list(s1.subrange(1, s1.len() as int)) == enc_tx_list(s2.subrange(1, s2.len() as int)),
{
    let r1 = s1.subrange(1, s1.len() as int);
    let r2 = s2.subrange(1, s2.len() as int);
    assert(s1 == seq![s1[0]] + r1);
    assert(s2 == seq![s2[0]] + r2);
    lemma_tx_list_concat(seq![s1[0]], r1);
    lemma_tx_list_concat(seq![s2[0]], r2);
    assert(seq![s1[0]].drop_last() == Seq::<TxModel>::empty());
    assert(seq![s2[0]].drop_last() == Seq::<TxModel>::empty());
    lemma_tx_list_one(s1[0]);
    lemma_tx_list_one(s2[0]);
    lemma_framed_prefix(enc_tx(s1[0]), enc_tx_list(r1), enc_tx(s2[0]), enc_tx_list(r2));
}

proof fn lemma_tx_list_one(t: TxModel)
    ensures
        enc_tx_list(seq![t]) == framed(enc_tx(t)),
{
    let one = seq![t];
    assert(one.drop_last() =~= Seq::<TxModel>::empty());
    assert(one.last() == t);
    assert(enc_tx_list(one.drop_last()) == Seq::<u8>::empty());
    assert(Seq::<u8>::empty() + framed(enc_tx(t)) =~= framed(enc_tx(t)));
}

proof fn lemma_id_len_bound(t: TxModel)
    ensures
        t.id.len() <= enc_tx(t).len(),
{
    lemma_enc_tx_split(t);
    lemma_le_bytes_len(t.id.len() as nat, 8);
}

/// Do two transactions carry the same id and have the same recomputed id?
pub open spec fn same_ids(a: TxModel, b: TxModel) -> bool {
    a.id == b.id && tx_id_of(a) == tx_id_of(b)
}

/// Two transaction lists with the same canonical bytes and the same length hold transactions
/// with the same ids and the same recomputed ids, place by place.
#[verifier::rlimit(40)]
pub proof fn lemma_tx_list_round_trip_keeps_ids(s1: Seq<TxModel>, s2: Seq<TxModel>)
    requires
        enc_tx_list(s1) == enc_tx_list(s2),
        s1.len() == s2.len(),
        forall|i: int| 0 <= i < s1.len() ==> (#[trigger] enc_tx(s1[i])).len() < pow256(8),
        forall|i: int| 0 <= i < s2.len() ==> (#[trigger] enc_tx(s2[i])).len() < pow256(8),
    ensures
        forall|i: int| 0 <= i < s1.len() ==> #[trigger] same_ids(s1[i], s2[i]),
    decreases s1.len(),
{
    if s1.len() > 0 {
        let r1 = s1.subrange(1, s1.len() as int);
        let r2 = s2.subrange(1, s2.len() as int);
        assert(enc_tx(s1[0]).len() < pow256(8));
        assert(enc_tx(s2[0]).len() < pow256(8));
        lemma_tx_list_head(s1, s2);
        lemma_id_len_bound(s1[0]);
        lemma_id_len_bound(s2[0]);
        lemma_round_trip_keeps_id(s1[0], s2[0]);
        assert(s1[0].id == s2[0].id && tx_id_of(s1[0]) == tx_id_of(s2[0]));
        assert forall|i: int| 0 <= i < r1.len() implies (#[trigger] enc_tx(r1[i])).len() < pow256(8) by {
            assert(r1[i] == s1[i + 1]);
        }
        assert forall|i: int| 0 <= i < r2.len() implies (#[trigger] enc_tx(r2[i])).len() < pow256(8) by {
            assert(r2[i] == s2[i + 1]);
        }
        lemma_tx_list_round_trip_keeps_ids(r1, r2);
        assert forall|i: int| 0 <= i < s1.len() implies #[trigger] same_ids(s1[i], s2[i]) by {
            if i > 0 {
                assert(s1[i] == r1[i - 1]);
                assert(s2[i] == r2[i - 1]);
                assert(same_ids(r1[i - 1], r2[i - 1]));
            }
        }
    }
}

} // verus!
