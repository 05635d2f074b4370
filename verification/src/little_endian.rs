use vstd::arithmetic::div_mod::{lemma_fundamental_div_mod_converse, lemma_mod_breakdown};
use vstd::prelude::*;

verus! {

/// `256` to the power `k`.
pub open spec fn pow256(k: nat) -> nat
    decreases k,
{
    if k == 0 {
        1
    } else {
        256 * pow256((k - 1) as nat)
    }
}

/// The number that `bytes` hold, least significant byte first.
pub open spec fn le_value(bytes: Seq<u8>) -> nat
    decreases bytes.len(),
{
    if bytes.len() == 0 {
        0
    } else {
        bytes[0] as nat + 256 * le_value(bytes.drop_first())
    }
}

/// The lowest `len` bytes of `n`, least significant first.
pub open spec fn le_bytes(n: nat, len: nat) -> Seq<u8>
    decreases len,
{
    if len == 0 {
        seq![]
    } else {
        seq![(n % 256) as u8] + le_bytes(n / 256, (len - 1) as nat)
    }
}

pub proof fn lemma_pow256_positive(k: nat)
    ensures
        pow256(k) > 0,
    decreases k,
{
    if k > 0 {
        lemma_pow256_positive((k - 1) as nat);
    }
}

pub proof fn lemma_le_bytes_len(n: nat, len: nat)
    ensures
        le_bytes(n, len).len() == len,
    decreases len,
{
    if len > 0 {
        lemma_le_bytes_len(n / 256, (len - 1) as nat);
    }
}

/// The number that `k` bytes hold is below `256` to the power `k`.
pub proof fn lemma_le_value_bound(bytes: Seq<u8>)
    ensures
        le_value(bytes) < pow256(bytes.len()),
    decreases bytes.len(),
{
    if bytes.len() > 0 {
        let r = le_value(bytes.drop_first());
        let p = pow256((bytes.len() - 1) as nat);
        lemma_le_value_bound(bytes.drop_first());
        assert(bytes[0] as nat + 256 * r < 256 * p) by (nonlinear_arith)
            requires
                bytes[0] < 256,
                r < p,
        ;
    }
}

/// Reading back the lowest `len` bytes of `n` gives `n` modulo `256` to the power `len`.
pub proof fn lemma_le_value_of_bytes(n: nat, len: nat)
    ensures
        le_value(le_bytes(n, len)) == n % pow256(len),
    decreases len,
{
    lemma_le_bytes_len(n, len);
    if len == 0 {
    } else {
        let rest = le_bytes(n / 256, (len - 1) as nat);
        lemma_le_value_of_bytes(n / 256, (len - 1) as nat);
        assert(le_bytes(n, len).drop_first() =~= rest);
        lemma_pow256_positive((len - 1) as nat);
        lemma_mod_breakdown(n as int, 256, pow256((len - 1) as nat) as int);
    }
}

/// Writing out the number that some bytes hold gives those bytes back.
pub proof fn lemma_le_bytes_of_value(bytes: Seq<u8>)
    ensures
        le_bytes(le_value(bytes), bytes.len()) == bytes,
    decreases bytes.len(),
{
    if bytes.len() > 0 {
        let rest = bytes.drop_first();
        let r = le_value(rest);
        let v = le_value(bytes);
        lemma_le_bytes_of_value(rest);
        lemma_fundamental_div_mod_converse(v as int, 256, r as int, bytes[0] as int);
        assert(le_bytes(v, bytes.len()) =~= seq![bytes[0]] + rest);
        assert(bytes =~= seq![bytes[0]] + rest);
    }
}

/// The lowest `len` bytes of `x`, least significant first.
pub fn to_le_bytes(x: u64, len: usize) -> (r: Vec<u8>)
    requires
        len <= 8,
    ensures
        r@ == le_bytes(x as nat, len as nat),
{
    let mut r: Vec<u8> = Vec::new();
    let mut v = x;
    let mut i: usize = 0;
    while i < len
        invariant
            i <= len,
            r@ + le_bytes(v as nat, (len - i) as nat) == le_bytes(x as nat, len as nat),
        decreases len - i,
    {
        assert(v & 0xff == v % 256 && v >> 8 == v / 256) by (bit_vector);
        let b = (v & 0xff) as u8;
        let ghost old_r = r@;
        let ghost old_v = v;
        r.push(b);
        v = v >> 8;
        proof {
            let tail = le_bytes(old_v as nat, (len - i) as nat);
            assert(tail == seq![(old_v as nat % 256) as u8] + le_bytes(
                v as nat,
                (len - i - 1) as nat,
            ));
            assert(r@ + le_bytes(v as nat, (len - i - 1) as nat) =~= old_r + tail);
        }
        i = i + 1;
    }
    assert(le_bytes(v as nat, 0) =~= Seq::<u8>::empty());
    assert(r@ =~= r@ + le_bytes(v as nat, 0));
    r
}

/// The number that at most eight bytes hold, least significant first.
pub fn from_le_bytes(bytes: &[u8]) -> (r: u64)
    requires
        bytes.len() <= 8,
    ensures
        r == le_value(bytes@),
{
    let n = bytes.len();
    let mut acc: u64 = 0;
    let mut i: usize = n;
    proof {
        assert(bytes@.subrange(n as int, n as int) =~= Seq::<u8>::empty());
    }
    while i > 0
        invariant
            i <= n == bytes.len() <= 8,
            acc == le_value(bytes@.subrange(i as int, n as int)),
        decreases i,
    {
        let ghost tail = bytes@.subrange(i as int, n as int);
        let ghost next = bytes@.subrange(i - 1, n as int);
        proof {
            assert(next.drop_first() =~= tail);
            lemma_le_value_bound(tail);
            assert(pow256(tail.len()) <= pow256(7)) by {
                lemma_pow256_monotone(tail.len(), 7);
            }
            assert(pow256(7) == 0x100000000000000) by {
                reveal_with_fuel(pow256, 8);
            }
            assert(bytes[i - 1] as nat + 256 * (acc as nat) <= u64::MAX) by (nonlinear_arith)
                requires
                    acc < 0x100000000000000,
                    bytes[i - 1] < 256,
            ;
        }
        acc = bytes[i - 1] as u64 + 256 * acc;
        i = i - 1;
    }
    assert(bytes@.subrange(0, n as int) =~= bytes@);
    acc
}

proof fn lemma_pow256_monotone(a: nat, b: nat)
    requires
        a <= b,
    ensures
        pow256(a) <= pow256(b),
    decreases b,
{
    if a < b {
        lemma_pow256_monotone(a, (b - 1) as nat);
        lemma_pow256_positive((b - 1) as nat);
    }
}

} // verus!
