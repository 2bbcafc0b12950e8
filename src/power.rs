use vstd::prelude::*;
use vstd::arithmetic::power::{pow, lemma_pow_increases, lemma0_pow};

verus! {

/// Raising to a power keeps the order of nonnegative bases.
pub proof fn lemma_pow_base_monotone(a: int, b: int, n: nat)
    requires
        0 <= a <= b,
    ensures
        0 <= pow(a, n) <= pow(b, n),
    decreases n,
{
    reveal(pow);
    if n > 0 {
        lemma_pow_base_monotone(a, b, (n - 1) as nat);
        let pa = pow(a, (n - 1) as nat);
        let pb = pow(b, (n - 1) as nat);
        assert(0 <= a * pa <= b * pb) by (nonlinear_arith)
            requires
                0 <= a <= b,
                0 <= pa <= pb,
        ;
    }
}

/// A power of a negated base is the power of the base, negated when the
/// exponent is odd.
pub proof fn lemma_pow_negated_base(a: int, n: nat)
    ensures
        pow(-a, n) == if n % 2 == 0 { pow(a, n) } else { -pow(a, n) },
    decreases n,
{
    reveal(pow);
    if n > 0 {
        lemma_pow_negated_base(a, (n - 1) as nat);
        let pa = pow(a, (n - 1) as nat);
        let pn = pow(-a, (n - 1) as nat);
        if n % 2 == 0 {
            assert(pn == -pa);
            assert((-a) * pn == a * pa) by (nonlinear_arith)
                requires
                    pn == -pa,
            ;
        } else {
            assert(pn == pa);
            assert((-a) * pn == -(a * pa)) by (nonlinear_arith)
                requires
                    pn == pa,
            ;
        }
    }
}

/// A base of at least 1 is at most any of its positive powers.
pub proof fn lemma_pow_at_least_base(b: int, n: nat)
    requires
        b >= 1,
        n >= 1,
    ensures
        pow(b, n) >= b,
    decreases n,
{
    reveal(pow);
    if n > 1 {
        lemma_pow_at_least_base(b, (n - 1) as nat);
        let p = pow(b, (n - 1) as nat);
        assert(b * p >= b) by (nonlinear_arith)
            requires
                b >= 1,
                p >= b,
        ;
    } else {
        assert(pow(b, 0) == 1);
    }
}

/// `b` raised to `n`, when that is at most `m`.
fn pow_at_most(b: u64, n: u32, m: u64) -> (r: Option<u64>)
    ensures
        r matches Some(x) ==> x == pow(b as int, n as nat) && x <= m,
        r is None ==> pow(b as int, n as nat) > m,
{
    let mut acc: u64 = 1;
    let mut k: u32 = 0;
    proof {
        reveal(pow);
    }
    while k < n
        invariant
            k <= n,
            acc == pow(b as int, k as nat),
        decreases n - k,
    {
        proof {
            reveal(pow);
            assert(pow(b as int, (k + 1) as nat) == b * pow(b as int, k as nat));
        }
        proof {
            assert(acc * b <= 0xffff_ffff_ffff_ffff * 0xffff_ffff_ffff_ffff) by (nonlinear_arith)
                requires
                    0 <= acc <= 0xffff_ffff_ffff_ffff,
                    0 <= b <= 0xffff_ffff_ffff_ffff,
            ;
        }
        let x: u128 = acc as u128 * b as u128;
        proof {
            let next = pow(b as int, (k + 1) as nat);
            assert(x == next) by (nonlinear_arith)
                requires
                    x == acc * b,
                    next == b * acc,
            ;
        }
        if x > m as u128 {
            proof {
                assert(b > 0) by (nonlinear_arith)
                    requires
                        x == acc * b,
                        x > m,
                        m >= 0,
                        b >= 0,
                ;
                lemma_pow_increases(b as nat, (k + 1) as nat, n as nat);
            }
            return None;
        }
        acc = x as u64;
        k += 1;
    }
    if acc > m {
        None
    } else {
        Some(acc)
    }
}

/// The integer `n`-th root of `m`, rounded down, with its `n`-th power.
pub fn int_root(m: u64, n: u32) -> (r: (u64, u64))
    requires
        n >= 1,
        m < 0xffff_ffff_ffff_ffff,
    ensures
        r.1 == pow(r.0 as int, n as nat),
        r.1 <= m,
        m < pow(r.0 + 1, n as nat),
{
    proof {
        lemma0_pow(n as nat);
        lemma_pow_at_least_base(m + 1, n as nat);
    }
    let mut lo: u64 = 0;
    let mut plo: u64 = 0;
    let mut hi: u64 = m + 1;
    while hi - lo > 1
        invariant
            lo < hi <= m + 1,
            plo == pow(lo as int, n as nat),
            plo <= m,
            m < pow(hi as int, n as nat),
        decreases hi - lo,
    {
        let mid: u64 = lo + (hi - lo) / 2;
        match pow_at_most(mid, n, m) {
            Some(x) => {
                lo = mid;
                plo = x;
            },
            None => {
                hi = mid;
            },
        }
    }
    (lo, plo)
}

/// No integer has an `n`-th power strictly between the `n`-th powers of two
/// consecutive nonnegative integers: so `m` there is nobody's `n`-th power
/// among the nonnegative integers.
pub proof fn lemma_no_root_between(a: int, m: int, n: nat, s: int)
    requires
        a >= 0,
        s >= 0,
        pow(a, n) < m < pow(a + 1, n),
    ensures
        pow(s, n) != m,
{
    if s <= a {
        lemma_pow_base_monotone(s, a, n);
    } else {
        lemma_pow_base_monotone(a + 1, s, n);
    }
}

} // verus!
