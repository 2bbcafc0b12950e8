use vstd::prelude::*;
use crate::error::UnitError;
use vstd::arithmetic::div_mod::lemma_fundamental_div_mod_converse;

verus! {

/// Smallest value of an `i64`, as a mathematical integer.
pub open spec fn i64_lo() -> int {
    -0x8000_0000_0000_0000
}

/// Largest value of an `i64`, as a mathematical integer.
pub open spec fn i64_hi() -> int {
    0x7fff_ffff_ffff_ffff
}

/// Whether `x` can be held in an `i64`.
pub open spec fn fits_i64(x: int) -> bool {
    i64_lo() <= x <= i64_hi()
}

/// The sign of a nonzero integer, 1 or -1.
pub open spec fn sign(x: int) -> int {
    if x < 0 { -1 } else { 1 }
}

/// The product of two fractions given as (numerator, denominator).
pub open spec fn prod(a: (int, int), b: (int, int)) -> (int, int) {
    (a.0 * b.0, a.1 * b.1)
}

/// The sum of two fractions, over the product of their denominators.
pub open spec fn sum(a: (int, int), b: (int, int)) -> (int, int) {
    (a.0 * b.1 + b.0 * a.1, a.1 * b.1)
}

/// The difference of two fractions, over the product of their denominators.
pub open spec fn diff(a: (int, int), b: (int, int)) -> (int, int) {
    (a.0 * b.1 - b.0 * a.1, a.1 * b.1)
}

/// The quotient of two fractions, with the divisor's sign moved so that a
/// positive denominator stays positive.
pub open spec fn quot(a: (int, int), b: (int, int)) -> (int, int) {
    (sign(b.0) * a.0 * b.1, sign(b.0) * a.1 * b.0)
}

/// Whether both parts of a fraction fit in an `i64`.
pub open spec fn fits_pair(a: (int, int)) -> bool {
    fits_i64(a.0) && fits_i64(a.1)
}

/// Whether two fractions denote the same number.
pub open spec fn same_pair(a: (int, int), b: (int, int)) -> bool {
    a.0 * b.1 == b.0 * a.1
}

/// The greatest common divisor, by Euclid's algorithm.
pub open spec fn gcd(a: nat, b: nat) -> nat
    decreases b,
{
    if b == 0 {
        a
    } else {
        gcd(b, a % b)
    }
}

/// The absolute value.
pub open spec fn abs(x: int) -> nat {
    if x < 0 { (-x) as nat } else { x as nat }
}

/// A fraction with positive denominator in lowest terms.
pub open spec fn reduce_spec(a: (int, int)) -> (int, int) {
    let g = gcd(abs(a.0), abs(a.1)) as int;
    (if a.0 < 0 { -((abs(a.0) as int) / g) } else { (abs(a.0) as int) / g }, a.1 / g)
}

/// The product `d * k`.
pub open spec fn times(d: int, k: int) -> int {
    d * k
}

/// Whether `d` divides `x`.
pub open spec fn divides(d: int, x: int) -> bool {
    exists|k: int| x == #[trigger] times(d, k)
}

proof fn lemma_gcd_divides(a: nat, b: nat)
    ensures
        divides(gcd(a, b) as int, a as int),
        divides(gcd(a, b) as int, b as int),
        (a > 0 || b > 0) ==> gcd(a, b) > 0,
    decreases b,
{
    if b == 0 {
        assert(a as int == times(a as int, 1));
        assert(0int == times(a as int, 0));
    } else {
        lemma_gcd_divides(b, a % b);
        let g = gcd(b, a % b) as int;
        let k1 = choose|k: int| b as int == times(g, k);
        let k2 = choose|k: int| (a % b) as int == times(g, k);
        let q = (a / b) as int;
        assert(a as int == q * (b as int) + (a % b) as int) by (nonlinear_arith)
            requires
                b > 0,
                q == (a / b) as int,
        ;
        assert(a as int == times(g, q * k1 + k2)) by (nonlinear_arith)
            requires
                a as int == q * (b as int) + (a % b) as int,
                b as int == g * k1,
                (a % b) as int == g * k2,
        ;
    }
}

proof fn lemma_exact_div(x: int, g: int)
    requires
        g > 0,
        divides(g, x),
    ensures
        x / g * g == x,
{
    let k = choose|k: int| x == times(g, k);
    vstd::arithmetic::div_mod::lemma_fundamental_div_mod_converse(x, g, k, 0);
}

/// An exact rational number `num / den`, kept unreduced, with a positive denominator.
///
/// Two values stand for the same number when their cross products agree
/// (`same_value`); the arithmetic below states its results on the numerator and
/// denominator exactly.
#[derive(Debug, Clone, Copy, PartialEq, Eq, Structural)]
pub struct Rational {
    pub num: i64,
    pub den: i64,
}

impl View for Rational {
    type V = (int, int);

    open spec fn view(&self) -> (int, int) {
        (self.num as int, self.den as int)
    }
}

/// Whether `a` and `b` denote the same rational number.
pub open spec fn same_value(a: Rational, b: Rational) -> bool {
    a.num as int * b.den as int == b.num as int * a.den as int
}

proof fn lemma_product_bound(a: int, b: int)
    requires
        fits_i64(a),
        fits_i64(b),
    ensures
        -0x4000_0000_0000_0000_0000_0000_0000_0000 <= a * b <= 0x4000_0000_0000_0000_0000_0000_0000_0000,
{
    assert(-0x4000_0000_0000_0000_0000_0000_0000_0000 <= a * b <= 0x4000_0000_0000_0000_0000_0000_0000_0000)
        by (nonlinear_arith)
        requires
            -0x8000_0000_0000_0000 <= a <= 0x7fff_ffff_ffff_ffff,
            -0x8000_0000_0000_0000 <= b <= 0x7fff_ffff_ffff_ffff,
    ;
}

proof fn lemma_product_bound_pos(a: int, b: int)
    requires
        fits_i64(a),
        0 < b <= i64_hi(),
    ensures
        -0x4000_0000_0000_0000_0000_0000_0000_0000 < a * b < 0x4000_0000_0000_0000_0000_0000_0000_0000,
{
    assert(-0x4000_0000_0000_0000_0000_0000_0000_0000 < a * b < 0x4000_0000_0000_0000_0000_0000_0000_0000)
        by (nonlinear_arith)
        requires
            -0x8000_0000_0000_0000 <= a <= 0x7fff_ffff_ffff_ffff,
            0 < b <= 0x7fff_ffff_ffff_ffff,
    ;
}

impl Rational {
    /// A well-formed value has a positive denominator.
    pub open spec fn wf(self) -> bool {
        self.den > 0
    }

    /// Whether the value is zero.
    pub open spec fn is_zero_spec(self) -> bool {
        self.num == 0
    }

    /// The integer `n`, as `n / 1`.
    pub fn from_int(n: i64) -> (r: Rational)
        ensures
            r.wf(),
            r.num == n,
            r.den == 1,
    {
        Rational { num: n, den: 1 }
    }

    /// The quotient `num / den`, with the sign moved to the numerator.
    pub fn new(num: i64, den: i64) -> (r: Result<Rational, UnitError>)
        ensures
            den == 0 <==> r == Err::<Rational, UnitError>(UnitError::DivisionByZero),
            (den < 0 && (num == i64::MIN || den == i64::MIN)) <==> r == Err::<Rational, UnitError>(
                UnitError::Overflow,
            ),
            (den != 0 && !(den < 0 && (num == i64::MIN || den == i64::MIN))) <==> r is Ok,
            r matches Ok(q) ==> q.wf() && q.num == sign(den as int) * num && q.den == sign(
                den as int,
            ) * den,
    {
        if den == 0 {
            Err(UnitError::DivisionByZero)
        } else if den > 0 {
            Ok(Rational { num, den })
        } else if num == i64::MIN || den == i64::MIN {
            Err(UnitError::Overflow)
        } else {
            Ok(Rational { num: -num, den: -den })
        }
    }

    /// Whether the value is zero.
    pub fn is_zero(&self) -> (r: bool)
        ensures
            r == self.is_zero_spec(),
    {
        self.num == 0
    }

    /// Whether `self` and `o` denote the same number.
    pub fn same(&self, o: &Rational) -> (r: bool)
        ensures
            r == same_value(*self, *o),
    {
        proof {
            lemma_product_bound(self.num as int, o.den as int);
            lemma_product_bound(o.num as int, self.den as int);
        }
        (self.num as i128) * (o.den as i128) == (o.num as i128) * (self.den as i128)
    }

    /// The product `self * o`.
    pub fn mul(&self, o: &Rational) -> (r: Result<Rational, UnitError>)
        requires
            self.wf(),
            o.wf(),
        ensures
            r is Err ==> r == Err::<Rational, UnitError>(UnitError::Overflow),
            r matches Ok(q) ==> q.wf() && q@ == prod(self@, o@),
            r is Ok <==> fits_pair(prod(self@, o@)),
    {
        proof {
            lemma_product_bound(self.num as int, o.num as int);
            lemma_product_bound(self.den as int, o.den as int);
        }
        let n: i128 = (self.num as i128) * (o.num as i128);
        let d: i128 = (self.den as i128) * (o.den as i128);
        if n < i64::MIN as i128 || n > i64::MAX as i128 || d > i64::MAX as i128 {
            Err(UnitError::Overflow)
        } else {
            proof {
                assert(d > 0) by (nonlinear_arith)
                    requires
                        d == self.den * o.den,
                        self.den > 0,
                        o.den > 0,
                ;
            }
            Ok(Rational { num: n as i64, den: d as i64 })
        }
    }
    /// The sum `self + o`, over the product of the denominators.
    pub fn add(&self, o: &Rational) -> (r: Result<Rational, UnitError>)
        requires
            self.wf(),
            o.wf(),
        ensures
            r is Err ==> r == Err::<Rational, UnitError>(UnitError::Overflow),
            r matches Ok(q) ==> q.wf() && q@ == sum(self@, o@),
            r is Ok <==> fits_pair(sum(self@, o@)),
    {
        proof {
            lemma_product_bound_pos(self.num as int, o.den as int);
            lemma_product_bound_pos(o.num as int, self.den as int);
            lemma_product_bound(self.den as int, o.den as int);
        }
        let n: i128 = (self.num as i128) * (o.den as i128) + (o.num as i128) * (self.den as i128);
        let d: i128 = (self.den as i128) * (o.den as i128);
        if n < i64::MIN as i128 || n > i64::MAX as i128 || d > i64::MAX as i128 {
            Err(UnitError::Overflow)
        } else {
            proof {
                assert(d > 0) by (nonlinear_arith)
                    requires
                        d == self.den * o.den,
                        self.den > 0,
                        o.den > 0,
                ;
            }
            Ok(Rational { num: n as i64, den: d as i64 })
        }
    }

    /// The difference `self - o`, over the product of the denominators.
    pub fn sub(&self, o: &Rational) -> (r: Result<Rational, UnitError>)
        requires
            self.wf(),
            o.wf(),
        ensures
            r is Err ==> r == Err::<Rational, UnitError>(UnitError::Overflow),
            r matches Ok(q) ==> q.wf() && q@ == diff(self@, o@),
            r is Ok <==> fits_pair(diff(self@, o@)),
    {
        proof {
            lemma_product_bound_pos(self.num as int, o.den as int);
            lemma_product_bound_pos(o.num as int, self.den as int);
            lemma_product_bound(self.den as int, o.den as int);
        }
        let n: i128 = (self.num as i128) * (o.den as i128) - (o.num as i128) * (self.den as i128);
        let d: i128 = (self.den as i128) * (o.den as i128);
        if n < i64::MIN as i128 || n > i64::MAX as i128 || d > i64::MAX as i128 {
            Err(UnitError::Overflow)
        } else {
            proof {
                assert(d > 0) by (nonlinear_arith)
                    requires
                        d == self.den * o.den,
                        self.den > 0,
                        o.den > 0,
                ;
            }
            Ok(Rational { num: n as i64, den: d as i64 })
        }
    }

    /// The reciprocal `1 / self`, with the sign moved to the numerator.
    pub fn recip(&self) -> (r: Result<Rational, UnitError>)
        requires
            self.wf(),
        ensures
            self.num == 0 <==> r == Err::<Rational, UnitError>(UnitError::DivisionByZero),
            self.num == i64::MIN <==> r == Err::<Rational, UnitError>(UnitError::Overflow),
            (self.num != 0 && self.num != i64::MIN) <==> r is Ok,
            r matches Ok(q) ==> q.wf() && q.num == sign(self.num as int) * self.den && q.den
                == sign(self.num as int) * self.num,
    {
        if self.num == 0 {
            Err(UnitError::DivisionByZero)
        } else if self.num > 0 {
            Ok(Rational { num: self.den, den: self.num })
        } else if self.num == i64::MIN {
            Err(UnitError::Overflow)
        } else {
            Ok(Rational { num: -self.den, den: -self.num })
        }
    }

    /// The quotient `self / o`: the numerator takes `o`'s sign, so that the
    /// denominator stays positive.
    pub fn div(&self, o: &Rational) -> (r: Result<Rational, UnitError>)
        requires
            self.wf(),
            o.wf(),
        ensures
            o.num == 0 <==> r == Err::<Rational, UnitError>(UnitError::DivisionByZero),
            r matches Ok(q) ==> q.wf() && q@ == quot(self@, o@),
            r is Ok <==> (o.num != 0 && fits_pair(quot(self@, o@))),
            r is Err ==> r == Err::<Rational, UnitError>(UnitError::DivisionByZero) || r
                == Err::<Rational, UnitError>(UnitError::Overflow),
    {
        if o.num == 0 {
            return Err(UnitError::DivisionByZero);
        }
        proof {
            lemma_product_bound(self.num as int, o.den as int);
            lemma_product_bound(self.den as int, o.num as int);
        }
        let mut n: i128 = (self.num as i128) * (o.den as i128);
        let mut d: i128 = (self.den as i128) * (o.num as i128);
        if o.num < 0 {
            n = -n;
            d = -d;
        }
        assert(n == sign(o.num as int) * self.num * o.den) by (nonlinear_arith)
            requires
                o.num < 0 ==> n == -(self.num * o.den),
                o.num > 0 ==> n == self.num * o.den,
                o.num != 0,
        ;
        assert(d == sign(o.num as int) * self.den * o.num && d > 0) by (nonlinear_arith)
            requires
                o.num < 0 ==> d == -(self.den * o.num),
                o.num > 0 ==> d == self.den * o.num,
                o.num != 0,
                self.den > 0,
        ;
        if n < i64::MIN as i128 || n > i64::MAX as i128 || d > i64::MAX as i128 {
            Err(UnitError::Overflow)
        } else {
            Ok(Rational { num: n as i64, den: d as i64 })
        }
    }

    /// The same number in lowest terms.
    pub fn reduce(&self) -> (r: Rational)
        requires
            self.wf(),
        ensures
            r.wf(),
            r@ == reduce_spec(self@),
            same_value(r, *self),
    {
        let mut x: u64 = if self.num < 0 { (-(self.num as i128)) as u64 } else { self.num as u64 };
        let ghost a0 = abs(self.num as int);
        let ghost b0 = abs(self.den as int);
        let mut y: u64 = self.den as u64;
        while y != 0
            invariant
                gcd(x as nat, y as nat) == gcd(a0, b0),
            decreases y,
        {
            let t: u64 = x % y;
            x = y;
            y = t;
        }
        let g: u64 = x;
        proof {
            lemma_gcd_divides(a0, b0);
            assert(g > 0);
            lemma_exact_div(a0 as int, g as int);
            lemma_exact_div(b0 as int, g as int);
        }
        let m: u64 = if self.num < 0 { (-(self.num as i128)) as u64 } else { self.num as u64 };
        let q: u64 = m / g;
        let d: u64 = (self.den as u64) / g;
        proof {
            assert(q <= m && 0 < d <= self.den) by (nonlinear_arith)
                requires
                    q * g == m,
                    d * g == self.den,
                    g > 0,
                    self.den > 0,
            ;
        }
        let n: i64 = if self.num < 0 { -(q as i128) as i64 } else { q as i64 };
        let r = Rational { num: n, den: d as i64 };
        proof {
            assert(r.num * self.den == self.num * r.den) by (nonlinear_arith)
                requires
                    q * g == m,
                    d * g == self.den,
                    m == abs(self.num as int),
                    r.num == if self.num < 0 { -q } else { q as int },
                    r.den == d,
            ;
        }
        r
    }
}

} // verus!
