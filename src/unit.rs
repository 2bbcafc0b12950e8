use vstd::prelude::*;
use crate::dimension::{DimVector, mul_dim_spec, div_dim_spec, all_fit};
use crate::error::UnitError;
use crate::registry::Registry;
use crate::rational::{Rational, prod, quot, fits_pair};
use vstd::string::StringExecFns;

verus! {

/// A named unit of one dimension vector. A value `x` in this unit is
/// `x * scale + offset` in the registry's canonical base unit.
#[derive(Debug)]
pub struct Unit {
    pub symbol: String,
    pub plural: String,
    pub full_name: String,
    pub dim: DimVector,
    pub scale: Rational,
    pub offset: Rational,
}

impl Unit {
    /// A well-formed unit has a nonzero scale and well-formed fractions.
    pub open spec fn wf(&self) -> bool {
        self.scale.wf() && self.scale.num != 0 && self.offset.wf()
    }

    /// Whether the unit's conversion has an additive term.
    pub open spec fn has_offset(&self) -> bool {
        self.offset.num != 0
    }

    /// A field-for-field copy.
    pub fn duplicate(&self) -> (r: Unit)
        ensures
            r.symbol@ == self.symbol@,
            r.plural@ == self.plural@,
            r.full_name@ == self.full_name@,
            r.dim@ == self.dim@,
            r.scale == self.scale,
            r.offset == self.offset,
    {
        Unit {
            symbol: self.symbol.clone(),
            plural: self.plural.clone(),
            full_name: self.full_name.clone(),
            dim: self.dim.duplicate(),
            scale: self.scale,
            offset: self.offset,
        }
    }

    /// The unit of the product of a value in `self` and a value in `o`, with
    /// the given names. Units with an offset cannot be multiplied.
    pub fn mul_unit(&self, o: &Unit, symbol: &str, plural: &str, full_name: &str) -> (r: Result<
        Unit,
        UnitError,
    >)
        requires
            self.wf(),
            o.wf(),
        ensures
            (self.has_offset() || o.has_offset()) <==> r == Err::<Unit, UnitError>(
                UnitError::OffsetUnitNotMultiplicable,
            ),
            !self.has_offset() && !o.has_offset() && self.dim@.len() != o.dim@.len() ==> r
                == Err::<Unit, UnitError>(UnitError::ArityMismatch),
            (!self.has_offset() && !o.has_offset() && self.dim@.len() == o.dim@.len() && all_fit(
                mul_dim_spec(self.dim@, o.dim@),
            ) && fits_pair(prod(self.scale@, o.scale@))) <==> r is Ok,
            r matches Ok(u) ==> u.wf() && u.dim@ == mul_dim_spec(self.dim@, o.dim@) && u.scale@
                == prod(self.scale@, o.scale@) && u.offset@ == (0int, 1int) && u.symbol@
                == symbol@ && u.plural@ == plural@ && u.full_name@ == full_name@,
            r is Err ==> r != Err::<Unit, UnitError>(UnitError::DimensionMismatch),
    {
        if self.offset.num != 0 || o.offset.num != 0 {
            return Err(UnitError::OffsetUnitNotMultiplicable);
        }
        let dim = self.dim.mul_dim(&o.dim)?;
        let scale = self.scale.mul(&o.scale)?;
        proof {
            assert(scale.num != 0) by (nonlinear_arith)
                requires
                    scale.num == self.scale.num * o.scale.num,
                    self.scale.num != 0,
                    o.scale.num != 0,
            ;
        }
        Ok(
            Unit {
                symbol: symbol.to_string(),
                plural: plural.to_string(),
                full_name: full_name.to_string(),
                dim,
                scale,
                offset: Rational::from_int(0),
            },
        )
    }

    /// The unit of the quotient of a value in `self` by a value in `o`, with
    /// the given names. Units with an offset cannot be divided.
    pub fn div_unit(&self, o: &Unit, symbol: &str, plural: &str, full_name: &str) -> (r: Result<
        Unit,
        UnitError,
    >)
        requires
            self.wf(),
            o.wf(),
        ensures
            (self.has_offset() || o.has_offset()) <==> r == Err::<Unit, UnitError>(
                UnitError::OffsetUnitNotMultiplicable,
            ),
            !self.has_offset() && !o.has_offset() && self.dim@.len() != o.dim@.len() ==> r
                == Err::<Unit, UnitError>(UnitError::ArityMismatch),
            (!self.has_offset() && !o.has_offset() && self.dim@.len() == o.dim@.len() && all_fit(
                div_dim_spec(self.dim@, o.dim@),
            ) && fits_pair(quot(self.scale@, o.scale@))) <==> r is Ok,
            r matches Ok(u) ==> u.wf() && u.dim@ == div_dim_spec(self.dim@, o.dim@) && u.scale@
                == quot(self.scale@, o.scale@) && u.offset@ == (0int, 1int) && u.symbol@
                == symbol@ && u.plural@ == plural@ && u.full_name@ == full_name@,
            r is Err ==> r != Err::<Unit, UnitError>(UnitError::DimensionMismatch),
    {
        if self.offset.num != 0 || o.offset.num != 0 {
            return Err(UnitError::OffsetUnitNotMultiplicable);
        }
        let dim = self.dim.div_dim(&o.dim)?;
        let scale = self.scale.div(&o.scale)?;
        proof {
            assert(scale.num != 0) by (nonlinear_arith)
                requires
                    scale.num == crate::rational::sign(o.scale.num as int) * self.scale.num
                        * o.scale.den,
                    self.scale.num != 0,
                    o.scale.den > 0,
            ;
        }
        Ok(
            Unit {
                symbol: symbol.to_string(),
                plural: plural.to_string(),
                full_name: full_name.to_string(),
                dim,
                scale,
                offset: Rational::from_int(0),
            },
        )
    }
}


/// Whether some unit of `units` already uses `symbol` for a dimension vector
/// other than `dim`.
pub open spec fn conflicts(units: Seq<Unit>, symbol: Seq<char>, dim: Seq<int>) -> bool {
    exists|k: int| 0 <= k < units.len() && #[trigger] units[k].symbol@ == symbol && units[k].dim@ != dim
}

/// A set of named units over the dimension vectors of one registry.
#[derive(Debug)]
pub struct Catalog {
    arity: usize,
    units: Vec<Unit>,
}

impl Catalog {
    /// The number of base dimensions of the registry the catalog serves.
    pub closed spec fn arity(&self) -> nat {
        self.arity as nat
    }

    /// The units, in the order they were registered.
    pub closed spec fn units(&self) -> Seq<Unit> {
        self.units@
    }

    /// Every unit is well formed and spans the registry, and a symbol is never
    /// shared by two different dimension vectors.
    pub open spec fn wf(&self) -> bool {
        &&& forall|k: int| 0 <= k < self.units().len() ==> (#[trigger] self.units()[k]).wf()
        &&& forall|k: int| 0 <= k < self.units().len() ==> (#[trigger] self.units()[k]).dim@.len() == self.arity()
        &&& forall|i: int, j: int|
            0 <= i < self.units().len() && 0 <= j < self.units().len() && #[trigger] self.units()[i].symbol@
                == #[trigger] self.units()[j].symbol@ ==> self.units()[i].dim@ == self.units()[j].dim@
    }

    /// An empty catalog for the registry of `registry`'s dimensions.
    pub fn new(registry: &Registry) -> (r: Catalog)
        ensures
            r.wf(),
            r.arity() == registry@.len(),
            r.units().len() == 0,
    {
        Catalog { arity: registry.dimension_count(), units: Vec::new() }
    }

    /// The number of units.
    pub fn len(&self) -> (r: usize)
        ensures
            r == self.units().len(),
    {
        self.units.len()
    }

    /// The unit at position `k`.
    pub fn unit(&self, k: usize) -> (r: &Unit)
        requires
            k < self.units().len(),
        ensures
            *r == self.units()[k as int],
    {
        &self.units[k]
    }

    /// The position of the first unit with the given symbol, if any.
    pub fn find(&self, symbol: &str) -> (r: Option<usize>)
        ensures
            r matches Some(k) ==> k < self.units().len() && self.units()[k as int].symbol@ == symbol@
                && forall|j: int| 0 <= j < k ==> self.units()[j].symbol@ != symbol@,
            r is None ==> forall|j: int| 0 <= j < self.units().len() ==> self.units()[j].symbol@ != symbol@,
    {
        let target: String = symbol.to_string();
        let mut i: usize = 0;
        while i < self.units.len()
            invariant
                i <= self.units().len(),
                target@ == symbol@,
                forall|j: int| 0 <= j < i ==> self.units()[j].symbol@ != symbol@,
            decreases self.units().len() - i,
        {
            if self.units[i].symbol == target {
                return Some(i);
            }
            i += 1;
        }
        None
    }

    fn has_conflict(&self, symbol: &String, dim: &DimVector) -> (r: bool)
        ensures
            r == conflicts(self.units(), symbol@, dim@),
    {
        let mut i: usize = 0;
        while i < self.units.len()
            invariant
                i <= self.units().len(),
                forall|j: int| 0 <= j < i ==> !(self.units()[j].symbol@ == symbol@ && self.units()[j].dim@ != dim@),
            decreases self.units().len() - i,
        {
            if self.units[i].symbol == *symbol && !self.units[i].dim.equals(dim) {
                return true;
            }
            i += 1;
        }
        false
    }

    /// Attaches a unit to `dim`, converting by `x * scale + offset` into the
    /// base unit, and returns its position.
    pub fn register_unit(
        &mut self,
        dim: DimVector,
        symbol: &str,
        plural: &str,
        full_name: &str,
        scale: Rational,
        offset: Rational,
    ) -> (r: Result<usize, UnitError>)
        requires
            old(self).wf(),
            scale.wf(),
            offset.wf(),
        ensures
            final(self).wf(),
            final(self).arity() == old(self).arity(),
            dim@.len() != old(self).arity() <==> r == Err::<usize, UnitError>(UnitError::ArityMismatch),
            (dim@.len() == old(self).arity() && scale.num == 0) <==> r == Err::<usize, UnitError>(
                UnitError::DivisionByZero,
            ),
            (dim@.len() == old(self).arity() && scale.num != 0 && conflicts(old(self).units(), symbol@, dim@))
                <==> r == Err::<usize, UnitError>(UnitError::ConflictingSymbol),
            r is Err ==> final(self).units() == old(self).units(),
            r is Err ==> r == Err::<usize, UnitError>(UnitError::ArityMismatch) || r == Err::<
                usize,
                UnitError,
            >(UnitError::DivisionByZero) || r == Err::<usize, UnitError>(UnitError::ConflictingSymbol),
            r matches Ok(k) ==> {
                &&& k == old(self).units().len()
                &&& final(self).units().len() == k + 1
                &&& final(self).units().subrange(0, k as int) == old(self).units()
                &&& final(self).units()[k as int].symbol@ == symbol@
                &&& final(self).units()[k as int].plural@ == plural@
                &&& final(self).units()[k as int].full_name@ == full_name@
                &&& final(self).units()[k as int].dim@ == dim@
                &&& final(self).units()[k as int].scale == scale
                &&& final(self).units()[k as int].offset == offset
            },
    {
        if dim.len() != self.arity {
            return Err(UnitError::ArityMismatch);
        }
        if scale.num == 0 {
            return Err(UnitError::DivisionByZero);
        }
        let sym: String = symbol.to_string();
        if self.has_conflict(&sym, &dim) {
            return Err(UnitError::ConflictingSymbol);
        }
        let k: usize = self.units.len();
        let ghost before = self.units@;
        self.units.push(
            Unit {
                symbol: sym,
                plural: plural.to_string(),
                full_name: full_name.to_string(),
                dim,
                scale,
                offset,
            },
        );
        assert(self.units@.subrange(0, k as int) =~= before);
        assert forall|i: int, j: int|
            0 <= i < self.units().len() && 0 <= j < self.units().len() && #[trigger] self.units()[i].symbol@
                == #[trigger] self.units()[j].symbol@ implies self.units()[i].dim@ == self.units()[j].dim@ by {
            if i < k && j == k {
                assert(self.units()[i] == before[i]);
            } else if j < k && i == k {
                assert(self.units()[j] == before[j]);
            } else if i < k && j < k {
                assert(self.units()[i] == before[i]);
                assert(self.units()[j] == before[j]);
            }
        }
        Ok(k)
    }

    /// Registers the unit at position `base` with a multiplicative prefix:
    /// the prefix's symbol goes before the base's symbol, its name before the
    /// base's full and plural names, and the scale is multiplied by
    /// `multiplier`. Units with an offset take no prefix.
    pub fn register_prefixed(
        &mut self,
        base: usize,
        prefix_name: &str,
        prefix_symbol: &str,
        multiplier: Rational,
    ) -> (r: Result<usize, UnitError>)
        requires
            old(self).wf(),
            base < old(self).units().len(),
            multiplier.wf(),
        ensures
            final(self).wf(),
            final(self).arity() == old(self).arity(),
            ({
                let b = old(self).units()[base as int];
                &&& b.has_offset() <==> r == Err::<usize, UnitError>(UnitError::PrefixOnOffsetUnit)
                &&& (!b.has_offset() && multiplier.num == 0) <==> r == Err::<usize, UnitError>(
                    UnitError::DivisionByZero,
                )
                &&& (!b.has_offset() && multiplier.num != 0 && !fits_pair(prod(b.scale@, multiplier@)))
                    <==> r == Err::<usize, UnitError>(UnitError::Overflow)
                &&& (!b.has_offset() && multiplier.num != 0 && fits_pair(prod(b.scale@, multiplier@))
                    && conflicts(old(self).units(), prefix_symbol@ + b.symbol@, b.dim@)) <==> r
                    == Err::<usize, UnitError>(UnitError::ConflictingSymbol)
                &&& r matches Ok(k) ==> {
                    &&& k == old(self).units().len()
                    &&& final(self).units().len() == k + 1
                    &&& final(self).units().subrange(0, k as int) == old(self).units()
                    &&& final(self).units()[k as int].symbol@ == prefix_symbol@ + b.symbol@
                    &&& final(self).units()[k as int].plural@ == prefix_name@ + b.plural@
                    &&& final(self).units()[k as int].full_name@ == prefix_name@ + b.full_name@
                    &&& final(self).units()[k as int].dim@ == b.dim@
                    &&& final(self).units()[k as int].scale@ == prod(b.scale@, multiplier@)
                    &&& final(self).units()[k as int].offset == b.offset
                }
            }),
            r is Err ==> final(self).units() == old(self).units(),
            r is Err ==> r == Err::<usize, UnitError>(UnitError::PrefixOnOffsetUnit) || r == Err::<
                usize,
                UnitError,
            >(UnitError::DivisionByZero) || r == Err::<usize, UnitError>(UnitError::Overflow) || r
                == Err::<usize, UnitError>(UnitError::ConflictingSymbol),
    {
        if self.units[base].offset.num != 0 {
            return Err(UnitError::PrefixOnOffsetUnit);
        }
        if multiplier.num == 0 {
            return Err(UnitError::DivisionByZero);
        }
        let scale = match self.units[base].scale.mul(&multiplier) {
            Ok(s) => s,
            Err(e) => {
                return Err(e);
            },
        };
        proof {
            let b = self.units()[base as int];
            assert(scale.num != 0) by (nonlinear_arith)
                requires
                    scale.num == b.scale.num * multiplier.num,
                    b.scale.num != 0,
                    multiplier.num != 0,
            ;
        }
        let dim = self.units[base].dim.duplicate();
        proof {
            let b = self.units()[base as int];
            assert(b.dim@.len() == self.arity());
            assert(b.symbol@ == self.units[base as int].symbol@);
        }
        let offset = self.units[base].offset;
        let symbol = prefix_symbol.to_string().concat(self.units[base].symbol.as_str());
        let plural = prefix_name.to_string().concat(self.units[base].plural.as_str());
        let full_name = prefix_name.to_string().concat(self.units[base].full_name.as_str());
        self.register_unit(dim, symbol.as_str(), plural.as_str(), full_name.as_str(), scale, offset)
    }
}

} // verus!
