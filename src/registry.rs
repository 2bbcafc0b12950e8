use vstd::prelude::*;
use crate::dimension::DimVector;
use crate::error::UnitError;

verus! {

/// A base dimension of a registry: an orthogonal axis of measurement.
#[derive(Debug)]
pub struct BaseDimension {
    pub name: String,
    pub symbol: String,
    pub canonical_unit: String,
}

impl BaseDimension {
    /// A base dimension with the given name, symbol and canonical unit.
    pub fn new(name: &str, symbol: &str, canonical_unit: &str) -> (r: BaseDimension)
        ensures
            r.name@ == name@,
            r.symbol@ == symbol@,
            r.canonical_unit@ == canonical_unit@,
    {
        BaseDimension {
            name: name.to_string(),
            symbol: symbol.to_string(),
            canonical_unit: canonical_unit.to_string(),
        }
    }

    /// A field-for-field copy.
    pub fn duplicate(&self) -> (r: BaseDimension)
        ensures
            r == *self,
    {
        BaseDimension {
            name: self.name.clone(),
            symbol: self.symbol.clone(),
            canonical_unit: self.canonical_unit.clone(),
        }
    }
}

/// No two base dimensions share a name, and no two share a symbol.
pub open spec fn distinct_dims(s: Seq<BaseDimension>) -> bool {
    forall|i: int, j: int|
        0 <= i < j < s.len() ==> #[trigger] s[i].name@ != #[trigger] s[j].name@ && s[i].symbol@
            != s[j].symbol@
}

/// A sealed quantity system: an ordered list of distinct base dimensions.
/// The order fixes the component order of every dimension vector over it.
#[derive(Debug)]
pub struct Registry {
    dims: Vec<BaseDimension>,
}

impl View for Registry {
    type V = Seq<BaseDimension>;

    closed spec fn view(&self) -> Seq<BaseDimension> {
        self.dims@
    }
}

/// Whether the first `i` dimensions of `s` are distinct from each other.
spec fn distinct_prefix(s: Seq<BaseDimension>, i: int) -> bool {
    forall|a: int, b: int|
        0 <= a < b < i ==> #[trigger] s[a].name@ != #[trigger] s[b].name@ && s[a].symbol@
            != s[b].symbol@
}

impl Registry {
    /// A registry is well formed when its base dimensions are distinct.
    pub open spec fn wf(&self) -> bool {
        distinct_dims(self@)
    }

    /// Seals the given base dimensions, in order, into a registry.
    pub fn declare(dims: Vec<BaseDimension>) -> (r: Result<Registry, UnitError>)
        ensures
            distinct_dims(dims@) <==> r is Ok,
            r is Err ==> r == Err::<Registry, UnitError>(UnitError::DuplicateDimension),
            r matches Ok(reg) ==> reg@ == dims@ && reg.wf(),
    {
        let n: usize = dims.len();
        let mut j: usize = 0;
        while j < n
            invariant
                n == dims@.len(),
                j <= n,
                distinct_prefix(dims@, j as int),
            decreases n - j,
        {
            let mut i: usize = 0;
            while i < j
                invariant
                    n == dims@.len(),
                    i <= j < n,
                    distinct_prefix(dims@, j as int),
                    forall|a: int|
                        0 <= a < i ==> dims@[a].name@ != dims@[j as int].name@ && dims@[a].symbol@
                            != dims@[j as int].symbol@,
                decreases j - i,
            {
                if dims[i].name == dims[j].name || dims[i].symbol == dims[j].symbol {
                    return Err(UnitError::DuplicateDimension);
                }
                i += 1;
            }
            j += 1;
        }
        Ok(Registry { dims })
    }

    /// A new registry whose dimensions are this one's followed by `extra`.
    /// This registry is left as it was.
    pub fn extend(&self, extra: Vec<BaseDimension>) -> (r: Result<Registry, UnitError>)
        ensures
            distinct_dims(self@ + extra@) <==> r is Ok,
            r is Err ==> r == Err::<Registry, UnitError>(UnitError::DuplicateDimension),
            r matches Ok(reg) ==> reg@ == self@ + extra@ && reg.wf(),
    {
        let mut all: Vec<BaseDimension> = Vec::new();
        let mut i: usize = 0;
        while i < self.dims.len()
            invariant
                i <= self@.len(),
                all@ == self@.subrange(0, i as int),
            decreases self@.len() - i,
        {
            all.push(self.dims[i].duplicate());
            i += 1;
            assert(all@ =~= self@.subrange(0, i as int));
        }
        let mut extra = extra;
        let ghost e = extra@;
        all.append(&mut extra);
        assert(all@ =~= self@ + e);
        Registry::declare(all)
    }

    /// The number of base dimensions.
    pub fn dimension_count(&self) -> (r: usize)
        ensures
            r == self@.len(),
    {
        self.dims.len()
    }

    /// The base dimension at position `k`.
    pub fn dimension(&self, k: usize) -> (r: &BaseDimension)
        requires
            k < self@.len(),
        ensures
            *r == self@[k as int],
    {
        &self.dims[k]
    }

    /// The position of the base dimension called `name`, if there is one.
    pub fn position_of(&self, name: &str) -> (r: Option<usize>)
        ensures
            r matches Some(k) ==> k < self@.len() && self@[k as int].name@ == name@ && forall|
                j: int,
            |
                0 <= j < k ==> self@[j].name@ != name@,
            r is None ==> forall|j: int| 0 <= j < self@.len() ==> self@[j].name@ != name@,
    {
        let target: String = name.to_string();
        let mut i: usize = 0;
        while i < self.dims.len()
            invariant
                i <= self@.len(),
                target@ == name@,
                forall|j: int| 0 <= j < i ==> self@[j].name@ != name@,
            decreases self@.len() - i,
        {
            if self.dims[i].name == target {
                return Some(i);
            }
            i += 1;
        }
        None
    }

    /// The dimension vector with the given exponents, one per base dimension
    /// in this registry's order.
    pub fn dimension_vector_of(&self, exps: Vec<i64>) -> (r: Result<DimVector, UnitError>)
        ensures
            exps@.len() != self@.len() <==> r == Err::<DimVector, UnitError>(
                UnitError::ArityMismatch,
            ),
            exps@.len() == self@.len() <==> r is Ok,
            r matches Ok(v) ==> v.exps@ == exps@,
    {
        if exps.len() != self.dims.len() {
            Err(UnitError::ArityMismatch)
        } else {
            Ok(DimVector::new(exps))
        }
    }
}

/// Extending a registry keeps each original base dimension at its position,
/// with its name, symbol and canonical unit, and the lookup by name finds it
/// there and nowhere else.
pub proof fn lemma_extend_keeps_dimensions(base: Registry, extra: Seq<BaseDimension>, ext: Registry)
    requires
        ext@ == base@ + extra,
        ext.wf(),
    ensures
        forall|i: int| 0 <= i < base@.len() ==> #[trigger] ext@[i] == base@[i],
        forall|i: int, j: int|
            0 <= i < base@.len() && 0 <= j < ext@.len() ==> (#[trigger] ext@[j].name@ == #[trigger] base@[i].name@
                <==> j == i),
{
    assert forall|i: int, j: int|
        0 <= i < base@.len() && 0 <= j < ext@.len() implies (#[trigger] ext@[j].name@ == #[trigger] base@[i].name@
        <==> j == i) by {
        assert(ext@[i] == base@[i]);
        if j < i {
            assert(ext@[j].name@ != ext@[i].name@);
        } else if i < j {
            assert(ext@[i].name@ != ext@[j].name@);
        }
    }
}

} // verus!
