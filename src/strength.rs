//! The size of a password search space, and its entropy in bits, computed
//! exactly on a binary big number.
use vstd::prelude::*;

verus! {

/// `k` to the power `n`; `0` to the power `0` is `1`.
pub open spec fn power(k: nat, n: nat) -> nat
    decreases n,
{
    if n == 0 {
        1
    } else {
        k * power(k, (n - 1) as nat)
    }
}

/// Two to the power `e`.
pub open spec fn pow2(e: nat) -> nat
    decreases e,
{
    if e == 0 {
        1
    } else {
        2 * pow2((e - 1) as nat)
    }
}

/// The largest `e` with `2^e <= x`, for positive `x`; `0` for `0`.
pub open spec fn floor_log2(x: nat) -> nat
    decreases x,
{
    if x < 2 {
        0
    } else {
        1 + floor_log2(x / 2)
    }
}

/// Every digit is a binary digit.
pub open spec fn is_binary(s: Seq<u8>) -> bool {
    forall|i: int| 0 <= i < s.len() ==> #[trigger] s[i] <= 1
}

/// The number whose binary digits are `s`, least significant first.
pub open spec fn bits_value(s: Seq<u8>) -> nat
    decreases s.len(),
{
    if s.len() == 0 {
        0
    } else {
        bits_value(s.drop_last()) + (s.last() as nat) * pow2((s.len() - 1) as nat)
    }
}

proof fn lemma_bits_push(s: Seq<u8>, d: u8)
    ensures
        bits_value(s.push(d)) == bits_value(s) + (d as nat) * pow2(s.len()),
        d == 0 ==> bits_value(s.push(d)) == bits_value(s),
{
    assert(s.push(d).drop_last() =~= s);
    if d == 0 {
        assert((d as nat) * pow2(s.len()) == 0);
    }
}

proof fn lemma_bits_below(s: Seq<u8>)
    requires
        is_binary(s),
    ensures
        bits_value(s) < pow2(s.len()),
    decreases s.len(),
{
    if s.len() > 0 {
        lemma_bits_below(s.drop_last());
        assert(s.last() <= 1);
    }
}

proof fn lemma_floor_log2_between(x: nat, e: nat)
    requires
        pow2(e) <= x < pow2(e + 1),
    ensures
        floor_log2(x) == e,
    decreases e,
{
    if e > 0 {
        assert(pow2(e) == 2 * pow2((e - 1) as nat));
        lemma_floor_log2_between(x / 2, (e - 1) as nat);
    }
}

/// Moves the lowest binary digit of the carry `c` into the number `out`.
proof fn lemma_carry_step(out: Seq<u8>, c: nat, x: nat)
    requires
        bits_value(out) + c * pow2(out.len()) == x,
    ensures
        bits_value(out.push((c % 2) as u8)) + (c / 2) * pow2(out.len() + 1) == x,
{
    lemma_bits_push(out, (c % 2) as u8);
    let p = pow2(out.len());
    assert(pow2(out.len() + 1) == 2 * p);
    assert((c % 2) * p + (c / 2) * (2 * p) == c * p) by (nonlinear_arith)
        requires
            c == 2 * (c / 2) + c % 2,
    ;
}

/// The binary digits of `k` times the number whose binary digits are `s`.
fn mul_small(s: &Vec<u8>, k: u64) -> (r: Vec<u8>)
    requires
        is_binary(s@),
    ensures
        is_binary(r@),
        bits_value(r@) == (k as nat) * bits_value(s@),
{
    let mut out: Vec<u8> = Vec::new();
    let mut c: u128 = 0;
    let mut i: usize = 0;
    assert(s@.subrange(0, 0) =~= Seq::<u8>::empty());
    assert(bits_value(Seq::<u8>::empty()) == 0);
    while i < s.len()
        invariant
            i <= s@.len(),
            is_binary(s@),
            is_binary(out@),
            out@.len() == i,
            c <= u64::MAX,
            bits_value(out@) + (c as nat) * pow2(i as nat) == (k as nat) * bits_value(
                s@.subrange(0, i as int),
            ),
        decreases s@.len() - i,
    {
        let prod: u128 = if s[i] == 0 {
            0
        } else {
            k as u128
        };
        let t: u128 = prod + c;
        proof {
            assert(s@[i as int] <= 1);
            if s@[i as int] != 0 {
                assert(s@[i as int] == 1);
                assert(prod == k);
            }
            assert(prod == (s@[i as int] as nat) * (k as nat));
            let pre = s@.subrange(0, i as int);
            let si = s@[i as int] as nat;
            let p = pow2(i as nat);
            assert(s@.subrange(0, i + 1) =~= pre.push(s@[i as int]));
            lemma_bits_push(pre, s@[i as int]);
            assert(bits_value(out@) + (t as nat) * p == (k as nat) * bits_value(
                s@.subrange(0, i + 1),
            )) by (nonlinear_arith)
                requires
                    bits_value(out@) + (c as nat) * p == (k as nat) * bits_value(pre),
                    bits_value(s@.subrange(0, i + 1)) == bits_value(pre) + si * p,
                    t == si * (k as nat) + c,
            ;
            lemma_carry_step(out@, t as nat, (k as nat) * bits_value(s@.subrange(0, i + 1)));
        }
        out.push((t % 2) as u8);
        c = t / 2;
        i = i + 1;
    }
    assert(s@.subrange(0, s@.len() as int) =~= s@);
    while c > 0
        invariant
            is_binary(out@),
            bits_value(out@) + (c as nat) * pow2(out@.len()) == (k as nat) * bits_value(s@),
        decreases c,
    {
        proof {
            lemma_carry_step(out@, c as nat, (k as nat) * bits_value(s@));
        }
        out.push((c % 2) as u8);
        c = c / 2;
    }
    out
}

/// The position of the highest set digit of `s`; `0` when none is set.
fn floor_log2_bits(s: &Vec<u8>) -> (r: usize)
    requires
        is_binary(s@),
    ensures
        r == floor_log2(bits_value(s@)),
{
    let mut i: usize = s.len();
    assert(s@.subrange(0, i as int) =~= s@);
    while i > 0 && s[i - 1] == 0
        invariant
            i <= s@.len(),
            bits_value(s@.subrange(0, i as int)) == bits_value(s@),
        decreases i,
    {
        proof {
            let shorter = s@.subrange(0, i - 1);
            assert(s@[i - 1] == 0);
            assert(s@.subrange(0, i as int) =~= shorter.push(0u8));
            lemma_bits_push(shorter, 0u8);
            assert(bits_value(shorter.push(0u8)) == bits_value(shorter));
        }
        i = i - 1;
    }
    if i == 0 {
        return 0;
    }
    proof {
        let lo = s@.subrange(0, i - 1);
        assert(s@.subrange(0, i as int) =~= lo.push(1u8));
        lemma_bits_push(lo, 1u8);
        lemma_bits_below(lo);
        lemma_floor_log2_between(bits_value(s@), (i - 1) as nat);
    }
    i - 1
}

/// `floor(log2(k^n))`: the entropy in bits of `n` characters drawn from
/// `k`; `0` when `k^n` is `0` or `1`.
pub fn entropy_bits(k: usize, n: usize) -> (r: usize)
    ensures
        r == floor_log2(power(k as nat, n as nat)),
{
    let mut acc: Vec<u8> = vec![1u8];
    assert(bits_value(acc@) == 1) by {
        assert(acc@ =~= seq![1u8]);
        assert(acc@.len() == 1);
        assert(acc@.last() == 1);
        assert(acc@.drop_last() =~= Seq::<u8>::empty());
        assert(bits_value(Seq::<u8>::empty()) == 0);
        assert(pow2(0) == 1);
    }
    assert(power(k as nat, 0) == 1);
    let mut i: usize = 0;
    while i < n
        invariant
            i <= n,
            is_binary(acc@),
            bits_value(acc@) == power(k as nat, i as nat),
        decreases n - i,
    {
        acc = mul_small(&acc, k as u64);
        i = i + 1;
    }
    floor_log2_bits(&acc)
}

/// Any number of characters from a one-character alphabet, and no
/// character from any alphabet, carry no entropy.
pub proof fn lemma_no_entropy(k: nat, n: nat)
    requires
        k == 1 || n == 0,
    ensures
        floor_log2(power(k, n)) == 0,
    decreases n,
{
    if n > 0 {
        lemma_no_entropy(k, (n - 1) as nat);
        assert(floor_log2(power(k, (n - 1) as nat)) == 0);
        lemma_power_one(n);
    }
}

proof fn lemma_power_one(n: nat)
    ensures
        power(1, n) == 1,
    decreases n,
{
    if n > 0 {
        lemma_power_one((n - 1) as nat);
    }
}

} // verus!
