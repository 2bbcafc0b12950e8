use vstd::prelude::*;
use vstd::arithmetic::div_mod::{
    lemma_fundamental_div_mod, lemma_fundamental_div_mod_converse, lemma_mod_pos_bound,
};
use crate::error::UnitError;
use crate::rational::fits_i64;

verus! {

/// The all-zero exponent vector of length `n`: the dimensionless vector.
pub open spec fn zero_dim(n: nat) -> Seq<int> {
    Seq::new(n, |i: int| 0int)
}

/// The exponent vector with 1 at position `k` and 0 elsewhere.
pub open spec fn unit_dim(n: nat, k: int) -> Seq<int> {
    Seq::new(n, |i: int| if i == k { 1int } else { 0int })
}

/// Componentwise sum: the dimension of a product.
pub open spec fn mul_dim_spec(a: Seq<int>, b: Seq<int>) -> Seq<int> {
    Seq::new(a.len(), |i: int| a[i] + b[i])
}

/// Componentwise difference: the dimension of a quotient.
pub open spec fn div_dim_spec(a: Seq<int>, b: Seq<int>) -> Seq<int> {
    Seq::new(a.len(), |i: int| a[i] - b[i])
}

/// Componentwise scaling: the dimension of a power.
pub open spec fn pow_dim_spec(a: Seq<int>, n: int) -> Seq<int> {
    Seq::new(a.len(), |i: int| a[i] * n)
}

/// Componentwise quotient: the dimension of a root.
pub open spec fn root_dim_spec(a: Seq<int>, n: int) -> Seq<int> {
    Seq::new(a.len(), |i: int| a[i] / n)
}

/// Componentwise negation: the dimension of a reciprocal.
pub open spec fn recip_dim_spec(a: Seq<int>) -> Seq<int> {
    Seq::new(a.len(), |i: int| -a[i])
}

/// Whether every exponent is divisible by `n`.
pub open spec fn divisible_by(a: Seq<int>, n: int) -> bool {
    forall|i: int| 0 <= i < a.len() ==> #[trigger] a[i] % n == 0
}

/// Whether every exponent fits in an `i64`.
pub open spec fn all_fit(a: Seq<int>) -> bool {
    forall|i: int| 0 <= i < a.len() ==> fits_i64(#[trigger] a[i])
}

/// `a` padded with zero exponents up to length `n`.
pub open spec fn widen_spec(a: Seq<int>, n: nat) -> Seq<int> {
    a + zero_dim((n - a.len()) as nat)
}

/// A dimension vector: one integer exponent per base dimension of a registry,
/// in the registry's order.
#[derive(Debug, PartialEq, Eq)]
pub struct DimVector {
    pub exps: Vec<i64>,
}

impl View for DimVector {
    type V = Seq<int>;

    open spec fn view(&self) -> Seq<int> {
        Seq::new(self.exps@.len(), |i: int| self.exps@[i] as int)
    }
}

proof fn lemma_exact_quotient(a: int, n: int, m: int, q: int, r: int)
    requires
        n > 0,
        m == if a < 0 { -a } else { a },
        m == q * n + r,
        0 <= r < n,
    ensures
        (a % n == 0) <==> (r == 0),
        r == 0 ==> a / n == if a < 0 { -q } else { q },
{
    if a >= 0 {
        lemma_fundamental_div_mod_converse(a, n, q, r);
    } else if r == 0 {
        assert(a == (-q) * n + 0) by (nonlinear_arith)
            requires
                a == -(q * n),
        ;
        lemma_fundamental_div_mod_converse(a, n, -q, 0);
    } else {
        assert(a == (-q - 1) * n + (n - r)) by (nonlinear_arith)
            requires
                a == -(q * n + r),
        ;
        lemma_fundamental_div_mod_converse(a, n, -q - 1, n - r);
    }
}

/// Multiplying dimensions is associative.
pub proof fn lemma_mul_dim_associative(a: Seq<int>, b: Seq<int>, c: Seq<int>)
    requires
        a.len() == b.len(),
        b.len() == c.len(),
    ensures
        mul_dim_spec(mul_dim_spec(a, b), c) == mul_dim_spec(a, mul_dim_spec(b, c)),
{
    assert(mul_dim_spec(mul_dim_spec(a, b), c) =~= mul_dim_spec(a, mul_dim_spec(b, c)));
}

/// The dimensionless vector is the identity of dimension multiplication.
pub proof fn lemma_mul_dim_dimensionless(a: Seq<int>)
    ensures
        mul_dim_spec(a, zero_dim(a.len())) == a,
{
    assert(mul_dim_spec(a, zero_dim(a.len())) =~= a);
}

/// Dividing a dimension by itself leaves the dimensionless vector.
pub proof fn lemma_div_dim_self(a: Seq<int>)
    ensures
        div_dim_spec(a, a) == zero_dim(a.len()),
{
    assert(div_dim_spec(a, a) =~= zero_dim(a.len()));
}

impl DimVector {
    /// The vector with the given exponents.
    pub fn new(exps: Vec<i64>) -> (r: DimVector)
        ensures
            r.exps@ == exps@,
    {
        DimVector { exps }
    }

    /// A copy with the same exponents.
    pub fn duplicate(&self) -> (r: DimVector)
        ensures
            r@ == self@,
            r.exps@ == self.exps@,
    {
        DimVector { exps: self.exps.clone() }
    }

    /// The dimensionless vector over `n` base dimensions.
    pub fn dimensionless(n: usize) -> (r: DimVector)
        ensures
            r@ == zero_dim(n as nat),
    {
        let mut exps: Vec<i64> = Vec::new();
        let mut i: usize = 0;
        while i < n
            invariant
                i <= n,
                exps@.len() == i,
                forall|j: int| 0 <= j < i ==> exps@[j] == 0,
            decreases n - i,
        {
            exps.push(0);
            i += 1;
        }
        let r = DimVector { exps };
        assert(r@ =~= zero_dim(n as nat));
        r
    }

    /// The vector of base dimension `k` alone, over `n` base dimensions.
    pub fn base(n: usize, k: usize) -> (r: Result<DimVector, UnitError>)
        ensures
            k >= n <==> r == Err::<DimVector, UnitError>(UnitError::ArityMismatch),
            k < n <==> r is Ok,
            r matches Ok(v) ==> v@ == unit_dim(n as nat, k as int),
    {
        if k >= n {
            return Err(UnitError::ArityMismatch);
        }
        let mut exps: Vec<i64> = Vec::new();
        let mut i: usize = 0;
        while i < n
            invariant
                i <= n,
                exps@.len() == i,
                forall|j: int| 0 <= j < i ==> exps@[j] == if j == k { 1i64 } else { 0i64 },
            decreases n - i,
        {
            if i == k {
                exps.push(1);
            } else {
                exps.push(0);
            }
            i += 1;
        }
        let r = DimVector { exps };
        assert(r@ =~= unit_dim(n as nat, k as int));
        Ok(r)
    }

    /// The number of base dimensions the vector spans.
    pub fn len(&self) -> (r: usize)
        ensures
            r == self@.len(),
    {
        self.exps.len()
    }

    /// The exponent of base dimension `k`.
    pub fn exponent(&self, k: usize) -> (r: i64)
        requires
            k < self@.len(),
        ensures
            r == self@[k as int],
    {
        self.exps[k]
    }

    /// Whether both vectors have the same exponents.
    pub fn equals(&self, o: &DimVector) -> (r: bool)
        ensures
            r == (self@ == o@),
    {
        if self.exps.len() != o.exps.len() {
            proof {
                assert(self@.len() != o@.len());
            }
            return false;
        }
        let mut i: usize = 0;
        while i < self.exps.len()
            invariant
                i <= self@.len(),
                self@.len() == o@.len(),
                forall|j: int| 0 <= j < i ==> self@[j] == o@[j],
            decreases self@.len() - i,
        {
            if self.exps[i] != o.exps[i] {
                proof {
                    assert(self@[i as int] != o@[i as int]);
                }
                return false;
            }
            i += 1;
        }
        assert(self@ =~= o@);
        true
    }

    /// Whether every exponent is zero.
    pub fn is_dimensionless(&self) -> (r: bool)
        ensures
            r == (self@ == zero_dim(self@.len())),
    {
        let mut i: usize = 0;
        while i < self.exps.len()
            invariant
                i <= self@.len(),
                forall|j: int| 0 <= j < i ==> self@[j] == 0,
            decreases self@.len() - i,
        {
            if self.exps[i] != 0 {
                proof {
                    assert(self@[i as int] != zero_dim(self@.len())[i as int]);
                }
                return false;
            }
            i += 1;
        }
        assert(self@ =~= zero_dim(self@.len()));
        true
    }

    /// The dimension of a sum or difference: defined only for equal vectors.
    pub fn add_dim(&self, o: &DimVector) -> (r: Result<DimVector, UnitError>)
        ensures
            self@ == o@ <==> r is Ok,
            r is Err ==> r == Err::<DimVector, UnitError>(UnitError::DimensionMismatch),
            r matches Ok(v) ==> v@ == self@,
    {
        if self.equals(o) {
            Ok(DimVector { exps: self.exps.clone() })
        } else {
            Err(UnitError::DimensionMismatch)
        }
    }
    /// The dimension of a product: exponents added componentwise.
    pub fn mul_dim(&self, o: &DimVector) -> (r: Result<DimVector, UnitError>)
        ensures
            self@.len() != o@.len() <==> r == Err::<DimVector, UnitError>(UnitError::ArityMismatch),
            (self@.len() == o@.len() && all_fit(mul_dim_spec(self@, o@))) <==> r is Ok,
            r is Err ==> r == Err::<DimVector, UnitError>(UnitError::ArityMismatch) || r
                == Err::<DimVector, UnitError>(UnitError::Overflow),
            r matches Ok(v) ==> v@ == mul_dim_spec(self@, o@),
    {
        if self.exps.len() != o.exps.len() {
            return Err(UnitError::ArityMismatch);
        }
        let mut exps: Vec<i64> = Vec::new();
        let mut i: usize = 0;
        while i < self.exps.len()
            invariant
                i <= self@.len(),
                self@.len() == o@.len(),
                exps@.len() == i,
                forall|j: int| 0 <= j < i ==> exps@[j] == self@[j] + o@[j],
            decreases self@.len() - i,
        {
            let x: i128 = self.exps[i] as i128 + o.exps[i] as i128;
            if x < i64::MIN as i128 || x > i64::MAX as i128 {
                proof {
                    assert(!fits_i64(mul_dim_spec(self@, o@)[i as int]));
                }
                return Err(UnitError::Overflow);
            }
            exps.push(x as i64);
            i += 1;
        }
        let r = DimVector { exps };
        assert(r@ =~= mul_dim_spec(self@, o@));
        Ok(r)
    }

    /// The dimension of a quotient: exponents subtracted componentwise.
    pub fn div_dim(&self, o: &DimVector) -> (r: Result<DimVector, UnitError>)
        ensures
            self@.len() != o@.len() <==> r == Err::<DimVector, UnitError>(UnitError::ArityMismatch),
            (self@.len() == o@.len() && all_fit(div_dim_spec(self@, o@))) <==> r is Ok,
            r is Err ==> r == Err::<DimVector, UnitError>(UnitError::ArityMismatch) || r
                == Err::<DimVector, UnitError>(UnitError::Overflow),
            r matches Ok(v) ==> v@ == div_dim_spec(self@, o@),
    {
        if self.exps.len() != o.exps.len() {
            return Err(UnitError::ArityMismatch);
        }
        let mut exps: Vec<i64> = Vec::new();
        let mut i: usize = 0;
        while i < self.exps.len()
            invariant
                i <= self@.len(),
                self@.len() == o@.len(),
                exps@.len() == i,
                forall|j: int| 0 <= j < i ==> exps@[j] == self@[j] - o@[j],
            decreases self@.len() - i,
        {
            let x: i128 = self.exps[i] as i128 - o.exps[i] as i128;
            if x < i64::MIN as i128 || x > i64::MAX as i128 {
                proof {
                    assert(!fits_i64(div_dim_spec(self@, o@)[i as int]));
                }
                return Err(UnitError::Overflow);
            }
            exps.push(x as i64);
            i += 1;
        }
        let r = DimVector { exps };
        assert(r@ =~= div_dim_spec(self@, o@));
        Ok(r)
    }

    /// The dimension of the `n`-th power: exponents multiplied by `n`.
    pub fn pow_dim(&self, n: i64) -> (r: Result<DimVector, UnitError>)
        ensures
            all_fit(pow_dim_spec(self@, n as int)) <==> r is Ok,
            r is Err ==> r == Err::<DimVector, UnitError>(UnitError::Overflow),
            r matches Ok(v) ==> v@ == pow_dim_spec(self@, n as int),
    {
        let mut exps: Vec<i64> = Vec::new();
        let mut i: usize = 0;
        while i < self.exps.len()
            invariant
                i <= self@.len(),
                exps@.len() == i,
                forall|j: int| 0 <= j < i ==> exps@[j] == self@[j] * n,
            decreases self@.len() - i,
        {
            let a: i64 = self.exps[i];
            proof {
                assert(-0x4000_0000_0000_0000_0000_0000_0000_0000 <= a * n
                    <= 0x4000_0000_0000_0000_0000_0000_0000_0000) by (nonlinear_arith)
                    requires
                        fits_i64(a as int),
                        fits_i64(n as int),
                ;
            }
            let x: i128 = a as i128 * n as i128;
            if x < i64::MIN as i128 || x > i64::MAX as i128 {
                proof {
                    assert(!fits_i64(pow_dim_spec(self@, n as int)[i as int]));
                }
                return Err(UnitError::Overflow);
            }
            exps.push(x as i64);
            i += 1;
        }
        let r = DimVector { exps };
        assert(r@ =~= pow_dim_spec(self@, n as int));
        Ok(r)
    }

    /// The dimension of the `n`-th root: exponents divided by `n`, which must
    /// leave each of them an integer.
    pub fn root_dim(&self, n: u32) -> (r: Result<DimVector, UnitError>)
        ensures
            n == 0 <==> r == Err::<DimVector, UnitError>(UnitError::DivisionByZero),
            (n > 0 && !divisible_by(self@, n as int)) <==> r == Err::<DimVector, UnitError>(
                UnitError::NonIntegerExponent,
            ),
            (n > 0 && divisible_by(self@, n as int)) <==> r is Ok,
            r matches Ok(v) ==> v@ == root_dim_spec(self@, n as int),
    {
        if n == 0 {
            return Err(UnitError::DivisionByZero);
        }
        let mut exps: Vec<i64> = Vec::new();
        let mut i: usize = 0;
        while i < self.exps.len()
            invariant
                n > 0,
                i <= self@.len(),
                exps@.len() == i,
                forall|j: int| 0 <= j < i ==> #[trigger] self@[j] % (n as int) == 0,
                forall|j: int| 0 <= j < i ==> exps@[j] == self@[j] / (n as int),
            decreases self@.len() - i,
        {
            let a: i64 = self.exps[i];
            let m: i128 = if a < 0 { -(a as i128) } else { a as i128 };
            let q: i128 = m / (n as i128);
            let rem: i128 = m % (n as i128);
            proof {
                lemma_fundamental_div_mod(m as int, n as int);
                lemma_mod_pos_bound(m as int, n as int);
                assert(m == q * n + rem) by (nonlinear_arith)
                    requires
                        m == (n as int) * ((m as int) / (n as int)) + (m as int) % (n as int),
                        q == (m as int) / (n as int),
                        rem == (m as int) % (n as int),
                ;
                lemma_exact_quotient(a as int, n as int, m as int, q as int, rem as int);
            }
            if rem != 0 {
                proof {
                    assert(self@[i as int] % (n as int) != 0);
                }
                return Err(UnitError::NonIntegerExponent);
            }
            let x: i128 = if a < 0 { -q } else { q };
            proof {
                assert(0 <= q <= m) by (nonlinear_arith)
                    requires
                        m == q * n + rem,
                        rem == 0,
                        n > 0,
                        m >= 0,
                ;
            }
            exps.push(x as i64);
            i += 1;
        }
        let r = DimVector { exps };
        assert(r@ =~= root_dim_spec(self@, n as int));
        Ok(r)
    }

    /// The dimension of a reciprocal: every exponent negated.
    pub fn recip_dim(&self) -> (r: Result<DimVector, UnitError>)
        ensures
            all_fit(recip_dim_spec(self@)) <==> r is Ok,
            r is Err ==> r == Err::<DimVector, UnitError>(UnitError::Overflow),
            r matches Ok(v) ==> v@ == recip_dim_spec(self@),
    {
        let mut exps: Vec<i64> = Vec::new();
        let mut i: usize = 0;
        while i < self.exps.len()
            invariant
                i <= self@.len(),
                exps@.len() == i,
                forall|j: int| 0 <= j < i ==> exps@[j] == -self@[j],
            decreases self@.len() - i,
        {
            if self.exps[i] == i64::MIN {
                proof {
                    assert(!fits_i64(recip_dim_spec(self@)[i as int]));
                }
                return Err(UnitError::Overflow);
            }
            exps.push(-self.exps[i]);
            i += 1;
        }
        let r = DimVector { exps };
        assert(r@ =~= recip_dim_spec(self@));
        Ok(r)
    }

    /// The same vector over a registry of `n` base dimensions that extends
    /// this one's: the added dimensions get exponent zero.
    pub fn widen(&self, n: usize) -> (r: Result<DimVector, UnitError>)
        ensures
            n < self@.len() <==> r == Err::<DimVector, UnitError>(UnitError::ArityMismatch),
            n >= self@.len() <==> r is Ok,
            r matches Ok(v) ==> v@ == widen_spec(self@, n as nat),
    {
        if n < self.exps.len() {
            return Err(UnitError::ArityMismatch);
        }
        let mut exps: Vec<i64> = self.exps.clone();
        let mut i: usize = self.exps.len();
        while i < n
            invariant
                self@.len() <= i <= n,
                exps@.len() == i,
                forall|j: int| 0 <= j < self@.len() ==> exps@[j] == self@[j],
                forall|j: int| self@.len() <= j < i ==> exps@[j] == 0,
            decreases n - i,
        {
            exps.push(0);
            i += 1;
        }
        let r = DimVector { exps };
        assert(r@ =~= widen_spec(self@, n as nat));
        Ok(r)
    }
}

} // verus!
