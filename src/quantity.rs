use vstd::prelude::*;
use crate::dimension::{
    DimVector, mul_dim_spec, div_dim_spec, pow_dim_spec, recip_dim_spec, zero_dim, all_fit,
};
use crate::error::UnitError;
use crate::rational::{Rational, prod, sum, diff, quot, fits_pair, sign, same_pair, same_value, reduce_spec};
use vstd::arithmetic::power::pow;
use crate::dimension::{root_dim_spec, divisible_by};
use crate::power::{
    int_root, lemma_pow_base_monotone, lemma_pow_negated_base, lemma_pow_at_least_base,
    lemma_no_root_between,
};
use crate::unit::Unit;

verus! {

/// The `n`-th power of a fraction, part by part.
pub open spec fn pow_pair(a: (int, int), n: nat) -> (int, int) {
    (pow(a.0, n), pow(a.1, n))
}

/// Whether every power of `a` from the first to the `n`-th fits in `i64` parts.
pub open spec fn powers_fit(a: (int, int), n: nat) -> bool {
    forall|k: nat| 1 <= k <= n ==> fits_pair(#[trigger] pow_pair(a, k))
}

proof fn lemma_pow_pair_step(a: (int, int), k: nat)
    ensures
        pow_pair(a, k + 1) == prod(pow_pair(a, k), a),
{
    reveal(pow);
    assert(pow(a.0, k + 1) == pow(a.0, k) * a.0) by (nonlinear_arith)
        requires
            pow(a.0, k + 1) == a.0 * pow(a.0, k),
    ;
    assert(pow(a.1, k + 1) == pow(a.1, k) * a.1) by (nonlinear_arith)
        requires
            pow(a.1, k + 1) == a.1 * pow(a.1, k),
    ;
}

/// Whether the fraction `x` is the `n`-th power of a fraction with positive
/// denominator, part by part.
pub open spec fn has_exact_root(x: (int, int), n: nat) -> bool {
    exists|s: int, b: int|
        #![trigger pow(s, n), pow(b, n)]
        b > 0 && pow(s, n) == x.0 && pow(b, n) == x.1
}

/// Converting a raw value into a unit's base unit and back gives the raw
/// value again, for every unit with or without an offset.
pub proof fn lemma_unit_round_trip(unit: Unit, raw: Rational)
    requires
        unit.wf(),
        raw.wf(),
    ensures
        same_pair(quot(diff(sum(prod(raw@, unit.scale@), unit.offset@), unit.offset@), unit.scale@), raw@),
{
    let x = raw@;
    let s = unit.scale@;
    let o = unit.offset@;
    let v = sum(prod(x, s), o);
    let w = diff(v, o);
    assert(w.0 == x.0 * s.0 * (o.1 * o.1)) by (nonlinear_arith)
        requires
            v.0 == x.0 * s.0 * o.1 + o.0 * (x.1 * s.1),
            v.1 == x.1 * s.1 * o.1,
            w.0 == v.0 * o.1 - o.0 * v.1,
    ;
    assert(w.1 == x.1 * s.1 * (o.1 * o.1)) by (nonlinear_arith)
        requires
            v.1 == x.1 * s.1 * o.1,
            w.1 == v.1 * o.1,
    ;
    let q = quot(w, s);
    let g = sign(s.0);
    assert(q.0 * x.1 == x.0 * q.1) by (nonlinear_arith)
        requires
            q.0 == g * w.0 * s.1,
            q.1 == g * w.1 * s.0,
            w.0 == x.0 * s.0 * (o.1 * o.1),
            w.1 == x.1 * s.1 * (o.1 * o.1),
    ;
}

/// A value of some dimension, held in the registry's canonical base unit for
/// that dimension whatever unit it was made from.
#[derive(Debug)]
pub struct Quantity {
    pub dim: DimVector,
    pub value: Rational,
}

impl Quantity {
    /// A well-formed quantity holds a well-formed fraction.
    pub open spec fn wf(&self) -> bool {
        self.value.wf()
    }

    /// The value `raw`, given in `unit`: `raw * scale + offset` in base units.
    pub fn from_unit(unit: &Unit, raw: Rational) -> (r: Result<Quantity, UnitError>)
        requires
            unit.wf(),
            raw.wf(),
        ensures
            (fits_pair(prod(raw@, unit.scale@)) && fits_pair(sum(prod(raw@, unit.scale@), unit.offset@)))
                <==> r is Ok,
            r is Err ==> r == Err::<Quantity, UnitError>(UnitError::Overflow),
            r matches Ok(q) ==> q.wf() && q.dim@ == unit.dim@ && q.value@ == sum(
                prod(raw@, unit.scale@),
                unit.offset@,
            ),
    {
        let scaled = raw.mul(&unit.scale)?;
        let value = scaled.add(&unit.offset)?;
        Ok(Quantity { dim: unit.dim.duplicate(), value })
    }

    /// The value expressed in `unit`: `(value - offset) / scale`. The unit must
    /// be of the value's dimension.
    pub fn to_unit(&self, unit: &Unit) -> (r: Result<Rational, UnitError>)
        requires
            self.wf(),
            unit.wf(),
        ensures
            self.dim@ != unit.dim@ <==> r == Err::<Rational, UnitError>(UnitError::DimensionMismatch),
            (self.dim@ == unit.dim@ && fits_pair(diff(self.value@, unit.offset@)) && fits_pair(
                quot(diff(self.value@, unit.offset@), unit.scale@),
            )) <==> r is Ok,
            r matches Ok(x) ==> x.wf() && x@ == quot(diff(self.value@, unit.offset@), unit.scale@),
            r is Err ==> r == Err::<Rational, UnitError>(UnitError::DimensionMismatch) || r == Err::<
                Rational,
                UnitError,
            >(UnitError::Overflow),
    {
        if !self.dim.equals(&unit.dim) {
            return Err(UnitError::DimensionMismatch);
        }
        let shifted = self.value.sub(&unit.offset)?;
        shifted.div(&unit.scale)
    }

    /// The same quantity with its value in lowest terms.
    pub fn normalized(&self) -> (r: Quantity)
        requires
            self.wf(),
        ensures
            r.wf(),
            r.dim@ == self.dim@,
            r.value@ == reduce_spec(self.value@),
            same_value(r.value, self.value),
    {
        Quantity { dim: self.dim.duplicate(), value: self.value.reduce() }
    }

    /// The sum of two values of the same dimension.
    pub fn add(&self, o: &Quantity) -> (r: Result<Quantity, UnitError>)
        requires
            self.wf(),
            o.wf(),
        ensures
            self.dim@ != o.dim@ <==> r == Err::<Quantity, UnitError>(UnitError::DimensionMismatch),
            (self.dim@ == o.dim@ && fits_pair(sum(self.value@, o.value@))) <==> r is Ok,
            r is Err ==> r == Err::<Quantity, UnitError>(UnitError::DimensionMismatch) || r == Err::<
                Quantity,
                UnitError,
            >(UnitError::Overflow),
            r matches Ok(q) ==> q.wf() && q.dim@ == self.dim@ && q.value@ == sum(self.value@, o.value@),
    {
        let dim = self.dim.add_dim(&o.dim)?;
        let value = self.value.add(&o.value)?;
        Ok(Quantity { dim, value })
    }

    /// The difference of two values of the same dimension.
    pub fn sub(&self, o: &Quantity) -> (r: Result<Quantity, UnitError>)
        requires
            self.wf(),
            o.wf(),
        ensures
            self.dim@ != o.dim@ <==> r == Err::<Quantity, UnitError>(UnitError::DimensionMismatch),
            (self.dim@ == o.dim@ && fits_pair(diff(self.value@, o.value@))) <==> r is Ok,
            r is Err ==> r == Err::<Quantity, UnitError>(UnitError::DimensionMismatch) || r == Err::<
                Quantity,
                UnitError,
            >(UnitError::Overflow),
            r matches Ok(q) ==> q.wf() && q.dim@ == self.dim@ && q.value@ == diff(self.value@, o.value@),
    {
        let dim = self.dim.add_dim(&o.dim)?;
        let value = self.value.sub(&o.value)?;
        Ok(Quantity { dim, value })
    }

    /// The product of two values: exponents add, values multiply. The result
    /// need not be of a dimension that has a named unit.
    pub fn mul(&self, o: &Quantity) -> (r: Result<Quantity, UnitError>)
        requires
            self.wf(),
            o.wf(),
        ensures
            self.dim@.len() != o.dim@.len() <==> r == Err::<Quantity, UnitError>(
                UnitError::ArityMismatch,
            ),
            (self.dim@.len() == o.dim@.len() && all_fit(mul_dim_spec(self.dim@, o.dim@)) && fits_pair(
                prod(self.value@, o.value@),
            )) <==> r is Ok,
            r is Err ==> r == Err::<Quantity, UnitError>(UnitError::ArityMismatch) || r == Err::<
                Quantity,
                UnitError,
            >(UnitError::Overflow),
            r matches Ok(q) ==> q.wf() && q.dim@ == mul_dim_spec(self.dim@, o.dim@) && q.value@
                == prod(self.value@, o.value@),
    {
        let dim = self.dim.mul_dim(&o.dim)?;
        let value = self.value.mul(&o.value)?;
        Ok(Quantity { dim, value })
    }

    /// The quotient of two values: exponents subtract, values divide.
    pub fn div(&self, o: &Quantity) -> (r: Result<Quantity, UnitError>)
        requires
            self.wf(),
            o.wf(),
        ensures
            self.dim@.len() != o.dim@.len() <==> r == Err::<Quantity, UnitError>(
                UnitError::ArityMismatch,
            ),
            (self.dim@.len() == o.dim@.len() && o.value.num == 0) <==> r == Err::<Quantity, UnitError>(
                UnitError::DivisionByZero,
            ),
            (self.dim@.len() == o.dim@.len() && all_fit(div_dim_spec(self.dim@, o.dim@)) && o.value.num
                != 0 && fits_pair(quot(self.value@, o.value@))) <==> r is Ok,
            r is Err ==> r == Err::<Quantity, UnitError>(UnitError::ArityMismatch) || r == Err::<
                Quantity,
                UnitError,
            >(UnitError::DivisionByZero) || r == Err::<Quantity, UnitError>(UnitError::Overflow),
            r matches Ok(q) ==> q.wf() && q.dim@ == div_dim_spec(self.dim@, o.dim@) && q.value@
                == quot(self.value@, o.value@),
    {
        if self.dim.len() != o.dim.len() {
            return Err(UnitError::ArityMismatch);
        }
        if o.value.num == 0 {
            return Err(UnitError::DivisionByZero);
        }
        let dim = self.dim.div_dim(&o.dim)?;
        let value = self.value.div(&o.value)?;
        Ok(Quantity { dim, value })
    }

    /// The reciprocal: exponents negated, value inverted.
    pub fn recip(&self) -> (r: Result<Quantity, UnitError>)
        requires
            self.wf(),
        ensures
            self.value.num == 0 <==> r == Err::<Quantity, UnitError>(UnitError::DivisionByZero),
            (self.value.num != 0 && all_fit(recip_dim_spec(self.dim@)) && self.value.num != i64::MIN)
                <==> r is Ok,
            r is Err ==> r == Err::<Quantity, UnitError>(UnitError::DivisionByZero) || r == Err::<
                Quantity,
                UnitError,
            >(UnitError::Overflow),
            r matches Ok(q) ==> q.wf() && q.dim@ == recip_dim_spec(self.dim@) && q.value@ == (
                sign(self.value.num as int) * self.value.den,
                sign(self.value.num as int) * self.value.num,
            ),
    {
        if self.value.num == 0 {
            return Err(UnitError::DivisionByZero);
        }
        let dim = self.dim.recip_dim()?;
        let value = self.value.recip()?;
        Ok(Quantity { dim, value })
    }

    /// The `n`-th power for a signed `n`: a negative power is the reciprocal
    /// of the positive one.
    pub fn powi(&self, n: i32) -> (r: Result<Quantity, UnitError>)
        requires
            self.wf(),
        ensures
            n >= 0 ==> ((all_fit(pow_dim_spec(self.dim@, n as int)) && powers_fit(self.value@, n as nat))
                <==> r is Ok),
            n < 0 ==> ({
                let p = pow_pair(self.value@, (-n) as nat);
                (all_fit(pow_dim_spec(self.dim@, -n as int)) && powers_fit(self.value@, (-n) as nat)
                    && p.0 != 0 && p.0 != i64::MIN && all_fit(pow_dim_spec(self.dim@, n as int)))
                    <==> r is Ok
            }),
            r is Err ==> r == Err::<Quantity, UnitError>(UnitError::Overflow) || r == Err::<
                Quantity,
                UnitError,
            >(UnitError::DivisionByZero),
            r matches Ok(q) ==> q.wf() && q.dim@ == pow_dim_spec(self.dim@, n as int),
            r matches Ok(q) ==> n >= 0 ==> q.value@ == pow_pair(self.value@, n as nat),
            r matches Ok(q) ==> n < 0 ==> ({
                let p = pow_pair(self.value@, (-n) as nat);
                q.value@ == (sign(p.0) * p.1, sign(p.0) * p.0)
            }),
    {
        if n >= 0 {
            return self.pow(n as u32);
        }
        let m: u32 = (-(n as i64)) as u32;
        let pos = self.pow(m)?;
        proof {
            assert(recip_dim_spec(pow_dim_spec(self.dim@, m as int)) =~= pow_dim_spec(self.dim@, n as int)) by {
                assert forall|i: int| 0 <= i < self.dim@.len() implies -(#[trigger] self.dim@[i] * (m as int))
                    == self.dim@[i] * (n as int) by {
                    let a = self.dim@[i];
                    assert(-(a * (m as int)) == a * (n as int)) by (nonlinear_arith)
                        requires
                            m as int == -(n as int),
                    ;
                }
            }
        }
        pos.recip()
    }

    /// The `n`-th root: exponents divided by `n`, and the value in lowest terms
    /// replaced by the fraction whose `n`-th power it is.
    pub fn root(&self, n: u32) -> (r: Result<Quantity, UnitError>)
        requires
            self.wf(),
        ensures
            n == 0 <==> r == Err::<Quantity, UnitError>(UnitError::DivisionByZero),
            (n > 0 && !divisible_by(self.dim@, n as int)) <==> r == Err::<Quantity, UnitError>(
                UnitError::NonIntegerExponent,
            ),
            (n > 0 && divisible_by(self.dim@, n as int) && !has_exact_root(
                reduce_spec(self.value@),
                n as nat,
            )) <==> r == Err::<Quantity, UnitError>(UnitError::IrrationalRoot),
            (n > 0 && divisible_by(self.dim@, n as int) && has_exact_root(
                reduce_spec(self.value@),
                n as nat,
            )) <==> r is Ok,
            r matches Ok(q) ==> q.wf() && q.dim@ == root_dim_spec(self.dim@, n as int) && pow_pair(
                q.value@,
                n as nat,
            ) == reduce_spec(self.value@),
    {
        let dim = self.dim.root_dim(n)?;
        let v = self.value.reduce();
        let ghost p = v.num as int;
        let ghost d = v.den as int;
        let ghost nn = n as nat;
        if v.num < 0 && n % 2 == 0 {
            proof {
                if has_exact_root(v@, nn) {
                    let (s, b) = choose|s: int, b: int|
                        #![trigger pow(s, nn), pow(b, nn)]
                        b > 0 && pow(s, nn) == p && pow(b, nn) == d;
                    if s >= 0 {
                        lemma_pow_base_monotone(0, s, nn);
                    } else {
                        lemma_pow_negated_base(-s, nn);
                        lemma_pow_base_monotone(0, -s, nn);
                    }
                }
            }
            return Err(UnitError::IrrationalRoot);
        }
        let m: u64 = if v.num < 0 { (-(v.num as i128)) as u64 } else { v.num as u64 };
        let (a, pa) = int_root(m, n);
        if pa != m {
            proof {
                if has_exact_root(v@, nn) {
                    let (s, b) = choose|s: int, b: int|
                        #![trigger pow(s, nn), pow(b, nn)]
                        b > 0 && pow(s, nn) == p && pow(b, nn) == d;
                    if s >= 0 {
                        if p < 0 {
                            lemma_pow_base_monotone(0, s, nn);
                        } else {
                            lemma_no_root_between(a as int, m as int, nn, s);
                        }
                    } else {
                        lemma_pow_negated_base(-s, nn);
                        vstd::arithmetic::power::lemma_pow_positive(-s, nn);
                        lemma_no_root_between(a as int, m as int, nn, -s);
                    }
                }
            }
            return Err(UnitError::IrrationalRoot);
        }
        let (b, pb) = int_root(v.den as u64, n);
        if pb != v.den as u64 {
            proof {
                if has_exact_root(v@, nn) {
                    let (s, bb) = choose|s: int, b: int|
                        #![trigger pow(s, nn), pow(b, nn)]
                        b > 0 && pow(s, nn) == p && pow(b, nn) == d;
                    lemma_no_root_between(b as int, d, nn, bb);
                }
            }
            return Err(UnitError::IrrationalRoot);
        }
        proof {
            if a >= 1 {
                lemma_pow_at_least_base(a as int, nn);
            }
            if b == 0 {
                vstd::arithmetic::power::lemma0_pow(nn);
            }
            if b >= 1 {
                lemma_pow_at_least_base(b as int, nn);
            }
            lemma_pow_negated_base(a as int, nn);
        }
        let s: i64 = if v.num < 0 { (-(a as i128)) as i64 } else { a as i64 };
        let q = Quantity { dim, value: Rational { num: s, den: b as i64 } };
        proof {
            assert(pow(s as int, nn) == p && pow(b as int, nn) == d);
            assert(has_exact_root(v@, nn));
        }
        Ok(q)
    }

    /// The same magnitude as a value of `target`. Only a dimensionless value
    /// can be reinterpreted, and only through this explicit call.
    pub fn reinterpret(&self, target: &DimVector) -> (r: Result<Quantity, UnitError>)
        requires
            self.wf(),
        ensures
            self.dim@ != zero_dim(self.dim@.len()) <==> r is Err,
            r is Err ==> r == Err::<Quantity, UnitError>(UnitError::DimensionMismatch),
            r matches Ok(q) ==> q.wf() && q.dim@ == target@ && q.value == self.value,
    {
        if !self.dim.is_dimensionless() {
            return Err(UnitError::DimensionMismatch);
        }
        Ok(Quantity { dim: target.duplicate(), value: self.value })
    }
    /// The `n`-th power: exponents multiplied by `n`, numerator and
    /// denominator raised to `n`.
    pub fn pow(&self, n: u32) -> (r: Result<Quantity, UnitError>)
        requires
            self.wf(),
        ensures
            (all_fit(pow_dim_spec(self.dim@, n as int)) && powers_fit(self.value@, n as nat)) <==> r is Ok,
            r is Err ==> r == Err::<Quantity, UnitError>(UnitError::Overflow),
            r matches Ok(q) ==> q.wf() && q.dim@ == pow_dim_spec(self.dim@, n as int) && q.value@
                == pow_pair(self.value@, n as nat),
    {
        let dim = self.dim.pow_dim(n as i64)?;
        let mut acc = Rational::from_int(1);
        let mut k: u32 = 0;
        proof {
            reveal(pow);
        }
        while k < n
            invariant
                k <= n,
                acc.wf(),
                self.value.wf(),
                acc@ == pow_pair(self.value@, k as nat),
                powers_fit(self.value@, k as nat),
            decreases n - k,
        {
            proof {
                lemma_pow_pair_step(self.value@, k as nat);
            }
            acc = acc.mul(&self.value)?;
            proof {
                assert forall|j: nat| 1 <= j <= k + 1 implies fits_pair(#[trigger] pow_pair(self.value@, j)) by {
                    if j <= k {
                        assert(fits_pair(pow_pair(self.value@, j)));
                    }
                }
            }
            k += 1;
        }
        Ok(Quantity { dim, value: acc })
    }
}


/// Converts `x`, given in `from`, into `to`: `(x * from.scale + from.offset
/// - to.offset) / to.scale`. The two units must share a dimension vector.
pub fn convert(x: Rational, from: &Unit, to: &Unit) -> (r: Result<Rational, UnitError>)
    requires
        x.wf(),
        from.wf(),
        to.wf(),
    ensures
        from.dim@ != to.dim@ <==> r == Err::<Rational, UnitError>(UnitError::DimensionMismatch),
        ({
            let base = sum(prod(x@, from.scale@), from.offset@);
            (from.dim@ == to.dim@ && fits_pair(prod(x@, from.scale@)) && fits_pair(base) && fits_pair(
                diff(base, to.offset@),
            ) && fits_pair(quot(diff(base, to.offset@), to.scale@))) <==> r is Ok
        }),
        r is Err ==> r == Err::<Rational, UnitError>(UnitError::DimensionMismatch) || r == Err::<
            Rational,
            UnitError,
        >(UnitError::Overflow),
        r matches Ok(y) ==> y.wf() && y@ == quot(
            diff(sum(prod(x@, from.scale@), from.offset@), to.offset@),
            to.scale@,
        ),
{
    if !from.dim.equals(&to.dim) {
        return Err(UnitError::DimensionMismatch);
    }
    let q = Quantity::from_unit(from, x)?;
    q.to_unit(to)
}

} // verus!
