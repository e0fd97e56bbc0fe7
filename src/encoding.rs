use vstd::prelude::*;

verus! {

/// The `k` low bytes of `n`, least significant first.
pub open spec fn le_bytes(n: nat, k: nat) -> Seq<u8>
    decreases k,
{
    if k == 0 {
        Seq::empty()
    } else {
        seq![(n % 256) as u8] + le_bytes(n / 256, (k - 1) as nat)
    }
}

/// A byte string framed by its length as eight little-endian bytes.
pub open spec fn framed(b: Seq<u8>) -> Seq<u8> {
    le_bytes(b.len(), 8) + b
}

/// Appends the `k` low bytes of `n` to `out`, least significant first.
pub fn push_le(out: &mut Vec<u8>, n: u64, k: usize)
    requires
        k <= 8,
    ensures
        final(out)@ == old(out)@ + le_bytes(n as nat, k as nat),
{
    let mut v: u64 = n;
    let mut i: usize = 0;
    while i < k
        invariant
            i <= k,
            out@ + le_bytes(v as nat, (k - i) as nat) == old(out)@ + le_bytes(n as nat, k as nat),
        decreases k - i,
    {
        let ghost before = out@;
        out.push((v % 256) as u8);
        proof {
            assert(le_bytes(v as nat, (k - i) as nat) == seq![(v % 256) as u8] + le_bytes(
                (v / 256) as nat,
                (k - i - 1) as nat,
            ));
            assert(out@ == before + seq![(v % 256) as u8]);
            assert(before + le_bytes(v as nat, (k - i) as nat) == out@ + le_bytes(
                (v / 256) as nat,
                (k - i - 1) as nat,
            ));
        }
        v = v / 256;
        i = i + 1;
    }
    assert(le_bytes(v as nat, 0) == Seq::<u8>::empty());
    assert(out@ == out@ + Seq::<u8>::empty());
}

/// Appends `b` to `out`, framed by its length.
pub fn push_framed(out: &mut Vec<u8>, b: &[u8])
    ensures
        final(out)@ == old(out)@ + framed(b@),
{
    push_le(out, b.len() as u64, 8);
    let ghost mid = out@;
    let mut i: usize = 0;
    while i < b.len()
        invariant
            i <= b@.len(),
            mid == old(out)@ + le_bytes(b@.len(), 8),
            out@ == mid + b@.subrange(0, i as int),
        decreases b@.len() - i,
    {
        out.push(b[i]);
        assert(b@.subrange(0, i + 1) == b@.subrange(0, i as int).push(b@[i as int]));
        i = i + 1;
    }
    assert(b@.subrange(0, b@.len() as int) == b@);
}

/// 256 to the power `k`.
pub open spec fn pow256(k: nat) -> nat
    decreases k,
{
    if k == 0 {
        1
    } else {
        256 * pow256((k - 1) as nat)
    }
}

pub proof fn lemma_le_bytes_len(n: nat, k: nat)
    ensures
        le_bytes(n, k).len() == k,
    decreases k,
{
    if k > 0 {
        lemma_le_bytes_len(n / 256, (k - 1) as nat);
    }
}

/// Below `256^k`, the `k` low bytes of a number determine it.
pub proof fn lemma_le_bytes_injective(n: nat, m: nat, k: nat)
    requires
        n < pow256(k),
        m < pow256(k),
        le_bytes(n, k) == le_bytes(m, k),
    ensures
        n == m,
    decreases k,
{
    if k > 0 {
        let k1 = (k - 1) as nat;
        lemma_le_bytes_len(n / 256, k1);
        lemma_le_bytes_len(m / 256, k1);
        assert(le_bytes(n, k)[0] == (n % 256) as u8);
        assert(le_bytes(n / 256, k1) == le_bytes(n, k).subrange(1, k as int));
        assert(le_bytes(m / 256, k1) == le_bytes(m, k).subrange(1, k as int));
        assert(n / 256 < pow256(k1)) by (nonlinear_arith)
            requires
                n < 256 * pow256(k1),
        ;
        assert(m / 256 < pow256(k1)) by (nonlinear_arith)
            requires
                m < 256 * pow256(k1),
        ;
        lemma_le_bytes_injective(n / 256, m / 256, k1);
        assert(n == 256 * (n / 256) + n % 256) by (nonlinear_arith);
        assert(m == 256 * (m / 256) + m % 256) by (nonlinear_arith);
    }
}

/// Reads `k` bytes at `pos` as a little-endian number.
pub fn read_le(b: &[u8], pos: usize, k: usize) -> (r: u64)
    requires
        k <= 8,
        pos + k <= b@.len(),
    ensures
        le_bytes(r as nat, k as nat) == b@.subrange(pos as int, pos + k),
        (r as nat) < pow256(k as nat),
{
    reveal_with_fuel(pow256, 9);
    let blen = b.len();
    let mut v: u64 = 0;
    let mut j: usize = k;
    while j > 0
        invariant
            blen == b@.len(),
            j <= k <= 8,
            pos + k <= b@.len(),
            (v as nat) < pow256((k - j) as nat),
            le_bytes(v as nat, (k - j) as nat) == b@.subrange(pos + j, pos + k),
        decreases j,
    {
        j = j - 1;
        assert(pos + j < b@.len());
        let x = b[pos + j];
        assert(pow256(7) == 0x100_0000_0000_0000) by {
            reveal_with_fuel(pow256, 8);
        }
        assert(pow256((k - j) as nat) == 256 * pow256((k - j - 1) as nat));
        assert(pow256((k - j - 1) as nat) <= pow256(7)) by {
            lemma_pow256_mono((k - j - 1) as nat, 7);
        }
        assert(v * 256 + x < 0x1_0000_0000_0000_0000) by (nonlinear_arith)
            requires
                (v as nat) < pow256((k - j - 1) as nat),
                pow256((k - j - 1) as nat) <= pow256(7),
                pow256(7) == 0x100_0000_0000_0000,
                x < 256,
        ;
        let nv = v * 256 + x as u64;
        assert(nv % 256 == x as nat && nv / 256 == v as nat) by (nonlinear_arith)
            requires
                nv == v * 256 + x,
                x < 256,
        ;
        assert(nv < pow256((k - j) as nat)) by (nonlinear_arith)
            requires
                nv == v * 256 + x,
                x < 256,
                (v as nat) < pow256((k - j - 1) as nat),
                pow256((k - j) as nat) == 256 * pow256((k - j - 1) as nat),
        ;
        assert(b@.subrange(pos + j, pos + k) == seq![x] + b@.subrange(pos + j + 1, pos + k));
        v = nv;
    }
    v
}

pub proof fn lemma_pow256_mono(a: nat, b: nat)
    requires
        a <= b,
    ensures
        pow256(a) <= pow256(b),
    decreases b,
{
    if a < b {
        lemma_pow256_mono(a, (b - 1) as nat);
    }
}

} // verus!
