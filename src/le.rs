//! Little-endian integers in byte strings.
use vstd::arithmetic::div_mod::*;
use vstd::arithmetic::power::*;
use vstd::prelude::*;

verus! {

/// The `n` lowest bytes of `v`, least significant first.
pub open spec fn le_bytes(v: nat, n: nat) -> Seq<u8>
    decreases n,
{
    if n == 0 {
        Seq::empty()
    } else {
        seq![(v % 256) as u8] + le_bytes(v / 256, (n - 1) as nat)
    }
}

/// The number that bytes show, least significant first.
pub open spec fn le_value(s: Seq<u8>) -> nat
    decreases s.len(),
{
    if s.len() == 0 {
        0
    } else {
        (s[0] + 256 * le_value(s.drop_first())) as nat
    }
}

/// Appends the `n` lowest bytes of `v`, least significant first.
pub fn push_le(out: &mut Vec<u8>, v: u64, n: u32)
    ensures
        final(out)@ == old(out)@ + le_bytes(v as nat, n as nat),
    decreases n,
{
    if n == 0 {
        assert(old(out)@ + Seq::<u8>::empty() =~= old(out)@);
    } else {
        out.push((v % 256) as u8);
        push_le(out, v / 256, n - 1);
        assert(final(out)@ =~= old(out)@ + le_bytes(v as nat, n as nat));
    }
}

pub proof fn lemma_le_value_bound(s: Seq<u8>)
    ensures
        le_value(s) < pow(256, s.len()),
    decreases s.len(),
{
    reveal(pow);
    if s.len() > 0 {
        lemma_le_value_bound(s.drop_first());
        let p = pow(256, s.drop_first().len());
        let a = le_value(s.drop_first());
        assert(s[0] + 256 * a < 256 * p) by (nonlinear_arith)
            requires a < p, s[0] < 256;
    }
}

/// Reads the `n` bytes of `b` that start at `at`, least significant first.
pub fn read_le(b: &[u8], at: usize, n: usize) -> (r: u64)
    requires
        n <= 8,
        at + n <= b@.len(),
    ensures
        r == le_value(b@.subrange(at as int, at + n)),
{
    let blen = b.len();
    let mut acc: u64 = 0;
    let mut k: usize = n;
    while k > 0
        invariant
            blen == b@.len(),
            n <= 8,
            at + n <= b@.len(),
            k <= n,
            acc == le_value(b@.subrange(at + k, at + n)),
        decreases k,
    {
        let ghost s = b@.subrange(at + k - 1, at + n);
        proof {
            lemma_le_value_bound(s.drop_first());
            assert(s.drop_first() =~= b@.subrange(at + k, at + n));
            lemma_pow_increases(256, s.drop_first().len(), 7);
            assert(pow(256, 7) == 0x100_0000_0000_0000) by { reveal_with_fuel(pow, 8); }
            assert(b@[at + k - 1] + 256 * acc <= u64::MAX) by (nonlinear_arith)
                requires acc < 0x100_0000_0000_0000int, b@[at + k - 1] < 256;
        }
        acc = b[at + k - 1] as u64 + 256 * acc;
        k = k - 1;
    }
    acc
}

pub proof fn lemma_le_bytes_value(v: nat, n: nat)
    ensures
        le_bytes(v, n).len() == n,
        le_value(le_bytes(v, n)) == v % (pow(256, n) as nat),
        pow(256, n) > 0,
    decreases n,
{
    lemma_pow_positive(256, n);
    reveal(pow);
    if n > 0 {
        let p = pow(256, (n - 1) as nat);
        lemma_le_bytes_value(v / 256, (n - 1) as nat);
        let s = le_bytes(v, n);
        assert(s.drop_first() =~= le_bytes(v / 256, (n - 1) as nat));
        lemma_mod_breakdown(v as int, 256, p);
    }
}

pub proof fn lemma_le_value_injective(s: Seq<u8>, t: Seq<u8>)
    requires
        s.len() == t.len(),
        le_value(s) == le_value(t),
    ensures
        s == t,
    decreases s.len(),
{
    if s.len() > 0 {
        let a = le_value(s.drop_first());
        let b = le_value(t.drop_first());
        lemma_fundamental_div_mod_converse(le_value(s) as int, 256, a as int, s[0] as int);
        lemma_fundamental_div_mod_converse(le_value(t) as int, 256, b as int, t[0] as int);
        lemma_le_value_injective(s.drop_first(), t.drop_first());
        assert(s =~= seq![s[0]] + s.drop_first());
        assert(t =~= seq![t[0]] + t.drop_first());
    }
}


/// The value of bytes is that of their first `k` bytes plus `256^k` times that
/// of the rest.
pub proof fn lemma_le_value_split(s: Seq<u8>, k: nat)
    requires
        k <= s.len(),
    ensures
        le_value(s) == le_value(s.subrange(0, k as int)) + pow(256, k) * le_value(
            s.subrange(k as int, s.len() as int),
        ),
    decreases k,
{
    reveal(pow);
    if k == 0 {
        assert(s.subrange(0, s.len() as int) =~= s);
        assert(le_value(s.subrange(0, 0)) == 0);
    } else {
        let t = s.drop_first();
        lemma_le_value_split(t, (k - 1) as nat);
        assert(s.subrange(0, k as int).drop_first() =~= t.subrange(0, k - 1));
        assert(t.subrange(k - 1, t.len() as int) =~= s.subrange(k as int, s.len() as int));
        let a = le_value(t.subrange(0, k - 1));
        let b = le_value(s.subrange(k as int, s.len() as int));
        let p = pow(256, (k - 1) as nat);
        assert(256 * (a + p * b) == 256 * a + (256 * p) * b) by (nonlinear_arith);
    }
}

} // verus!
