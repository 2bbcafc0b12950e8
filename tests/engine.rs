use extended_isq::dimension::DimVector;
use extended_isq::error::UnitError;
use extended_isq::format::{rational_text, FormatStyle};
use extended_isq::quantity::{convert, Quantity};
use extended_isq::rational::Rational;
use extended_isq::registry::{BaseDimension, Registry};
use extended_isq::unit::Catalog;

fn rat(n: i64, d: i64) -> Rational {
    Rational::new(n, d).unwrap()
}

fn detector() -> Registry {
    Registry::declare(vec![
        BaseDimension::new("digit", "ADC", "adc"),
        BaseDimension::new("count", "PES", "pes"),
    ])
    .unwrap()
}

fn mechanics() -> Registry {
    Registry::declare(vec![
        BaseDimension::new("length", "L", "meter"),
        BaseDimension::new("mass", "M", "kilogram"),
        BaseDimension::new("time", "T", "second"),
    ])
    .unwrap()
}

/// A catalog over the detector registry holding adc (0), pes (1) and pes/adc (2).
fn detector_units(reg: &Registry) -> Catalog {
    let mut cat = Catalog::new(reg);
    let adc = cat
        .register_unit(DimVector::new(vec![1, 0]), "adc", "adcs", "adc", rat(1, 1), rat(0, 1))
        .unwrap();
    assert_eq!(adc, 0);
    let pes = cat
        .register_unit(DimVector::new(vec![0, 1]), "pes", "pes", "pes", rat(1, 1), rat(0, 1))
        .unwrap();
    assert_eq!(pes, 1);
    let cal = cat
        .unit(1)
        .div_unit(cat.unit(0), "pes/adc", "pes/adcs", "pes/adc")
        .unwrap();
    let k = cat
        .register_unit(cal.dim, "pes/adc", "pes/adcs", "pes/adc", cal.scale, cal.offset)
        .unwrap();
    assert_eq!(k, 2);
    cat
}

#[test]
fn extend_keeps_original_dimensions() {
    let base = mechanics();
    let ext = base
        .extend(vec![
            BaseDimension::new("digit", "ADC", "adc"),
            BaseDimension::new("count", "PES", "pes"),
        ])
        .unwrap();
    assert_eq!(base.dimension_count(), 3);
    assert_eq!(ext.dimension_count(), 5);
    for (k, name) in ["length", "mass", "time"].iter().enumerate() {
        assert_eq!(ext.position_of(name), Some(k));
        assert_eq!(ext.dimension(k).canonical_unit, base.dimension(k).canonical_unit);
        assert_eq!(ext.dimension(k).symbol, base.dimension(k).symbol);
    }
    assert_eq!(ext.position_of("count"), Some(4));
    assert_eq!(ext.position_of("charge"), None);
    let v = ext.dimension_vector_of(vec![1, 0, -2, 0, 0]).unwrap();
    assert_eq!(v.exps, vec![1, 0, -2, 0, 0]);
    let w = base.dimension_vector_of(vec![1, 0, -2]).unwrap().widen(5).unwrap();
    assert!(w.equals(&v));
}

#[test]
fn duplicate_dimensions_are_refused() {
    let dup_name = Registry::declare(vec![
        BaseDimension::new("length", "L", "meter"),
        BaseDimension::new("length", "X", "foot"),
    ]);
    assert_eq!(dup_name.unwrap_err(), UnitError::DuplicateDimension);
    let dup_symbol = mechanics().extend(vec![BaseDimension::new("luminosity", "L", "candela")]);
    assert_eq!(dup_symbol.unwrap_err(), UnitError::DuplicateDimension);
}

#[test]
fn arity_is_checked() {
    let reg = mechanics();
    assert_eq!(reg.dimension_vector_of(vec![1, 0]).unwrap_err(), UnitError::ArityMismatch);
    let a = DimVector::new(vec![1, 0]);
    let b = DimVector::new(vec![1, 0, 0]);
    assert_eq!(a.mul_dim(&b).unwrap_err(), UnitError::ArityMismatch);
    assert_eq!(b.widen(2).unwrap_err(), UnitError::ArityMismatch);
}

#[test]
fn dimension_algebra_laws() {
    let a = DimVector::new(vec![1, 0, -2]);
    let b = DimVector::new(vec![0, 3, 1]);
    let c = DimVector::new(vec![-4, 2, 2]);
    let left = a.mul_dim(&b).unwrap().mul_dim(&c).unwrap();
    let right = a.mul_dim(&b.mul_dim(&c).unwrap()).unwrap();
    assert_eq!(left.exps, vec![-3, 5, 1]);
    assert!(left.equals(&right));
    let z = DimVector::dimensionless(3);
    assert!(a.mul_dim(&z).unwrap().equals(&a));
    assert!(a.div_dim(&a).unwrap().is_dimensionless());
    assert_eq!(a.div_dim(&b).unwrap().exps, vec![1, -3, -3]);
    assert_eq!(a.pow_dim(3).unwrap().exps, vec![3, 0, -6]);
    assert_eq!(a.recip_dim().unwrap().exps, vec![-1, 0, 2]);
    assert_eq!(DimVector::base(3, 1).unwrap().exps, vec![0, 1, 0]);
    assert!(a.add_dim(&a).unwrap().equals(&a));
}

#[test]
fn roots_need_divisible_exponents() {
    let area = DimVector::new(vec![2, 0, -4]);
    assert_eq!(area.root_dim(2).unwrap().exps, vec![1, 0, -2]);
    let odd = DimVector::new(vec![3, 0, 0]);
    assert_eq!(odd.root_dim(2).unwrap_err(), UnitError::NonIntegerExponent);
    let neg = DimVector::new(vec![-3, 0, 0]);
    assert_eq!(neg.root_dim(2).unwrap_err(), UnitError::NonIntegerExponent);
    assert_eq!(area.root_dim(0).unwrap_err(), UnitError::DivisionByZero);
}

#[test]
fn exponent_overflow_is_reported() {
    let big = DimVector::new(vec![i64::MAX]);
    let one = DimVector::new(vec![1]);
    assert_eq!(big.mul_dim(&one).unwrap_err(), UnitError::Overflow);
    assert_eq!(big.pow_dim(2).unwrap_err(), UnitError::Overflow);
    assert_eq!(DimVector::new(vec![i64::MIN]).recip_dim().unwrap_err(), UnitError::Overflow);
}

#[test]
fn adding_length_to_time_fails() {
    let reg = mechanics();
    let mut cat = Catalog::new(&reg);
    let m = cat
        .register_unit(reg.dimension_vector_of(vec![1, 0, 0]).unwrap(), "m", "meters", "meter", rat(1, 1), rat(0, 1))
        .unwrap();
    let s = cat
        .register_unit(reg.dimension_vector_of(vec![0, 0, 1]).unwrap(), "s", "seconds", "second", rat(1, 1), rat(0, 1))
        .unwrap();
    let l = Quantity::from_unit(cat.unit(m), rat(3, 1)).unwrap();
    let t = Quantity::from_unit(cat.unit(s), rat(2, 1)).unwrap();
    assert_eq!(l.add(&t).unwrap_err(), UnitError::DimensionMismatch);
    assert_eq!(l.sub(&t).unwrap_err(), UnitError::DimensionMismatch);
    assert_eq!(l.to_unit(cat.unit(s)).unwrap_err(), UnitError::DimensionMismatch);
    let sum = l.add(&l).unwrap();
    assert!(sum.to_unit(cat.unit(m)).unwrap().same(&rat(6, 1)));
    let speed = l.div(&t).unwrap();
    assert_eq!(speed.dim.exps, vec![1, 0, -1]);
    assert!(speed.value.same(&rat(3, 2)));
}

#[test]
fn count_per_digit_calibration() {
    let reg = detector();
    let cat = detector_units(&reg);
    let counts = Quantity::from_unit(cat.unit(1), rat(100, 1)).unwrap();
    let digits = Quantity::from_unit(cat.unit(0), rat(50, 1)).unwrap();
    let cal = counts.div(&digits).unwrap();
    assert_eq!(cal.dim.exps, vec![-1, 1]);
    assert!(cal.value.same(&rat(2, 1)));
    assert_eq!(cal.normalized().value, rat(2, 1));
    assert!(cal.dim.equals(&cat.unit(2).dim));
    assert!(cal.to_unit(cat.unit(2)).unwrap().same(&rat(2, 1)));
    let inv = cal.recip().unwrap();
    assert_eq!(inv.dim.exps, vec![1, -1]);
    assert!(inv.value.same(&rat(1, 2)));
    let product = digits.mul(&counts).unwrap();
    assert_eq!(product.dim.exps, vec![1, 1]);
    assert!(product.value.same(&rat(5000, 1)));
}

#[test]
fn kilo_prefix_scales_by_thousand() {
    let reg = detector();
    let mut cat = detector_units(&reg);
    let kadc = cat.register_prefixed(0, "kilo", "k", rat(1000, 1)).unwrap();
    assert_eq!(cat.unit(kadc).symbol, "kadc");
    assert_eq!(cat.unit(kadc).full_name, "kiloadc");
    assert_eq!(cat.unit(kadc).plural, "kiloadcs");
    let q = Quantity::from_unit(cat.unit(kadc), rat(42, 1)).unwrap();
    let raw = q.to_unit(cat.unit(0)).unwrap();
    assert!(raw.same(&rat(42000, 1)));
    assert_eq!(rational_text(&raw), "42000");
    assert_eq!(cat.find("kadc"), Some(kadc));
}

#[test]
fn offset_unit_converts_and_refuses_products() {
    let reg = mechanics().extend(vec![BaseDimension::new("temperature", "Th", "kelvin")]).unwrap();
    let mut cat = Catalog::new(&reg);
    let dim = reg.dimension_vector_of(vec![0, 0, 0, 1]).unwrap();
    let c = cat
        .register_unit(dim, "degC", "degrees Celsius", "degree Celsius", rat(1, 1), rat(27315, 100))
        .unwrap();
    let q = Quantity::from_unit(cat.unit(c), rat(0, 1)).unwrap();
    assert!(q.value.same(&rat(27315, 100)));
    assert!(q.to_unit(cat.unit(c)).unwrap().same(&rat(0, 1)));
    let u = cat.unit(c);
    assert_eq!(u.mul_unit(u, "x", "x", "x").unwrap_err(), UnitError::OffsetUnitNotMultiplicable);
    assert_eq!(u.div_unit(u, "x", "x", "x").unwrap_err(), UnitError::OffsetUnitNotMultiplicable);
    assert_eq!(cat.register_prefixed(c, "milli", "m", rat(1, 1000)).unwrap_err(), UnitError::PrefixOnOffsetUnit);
}

#[test]
fn round_trip_returns_raw_value() {
    let reg = detector();
    let mut cat = Catalog::new(&reg);
    let dim = DimVector::new(vec![1, 0]);
    let scaled = cat.register_unit(dim.duplicate(), "sc", "sc", "sc", rat(7, 3), rat(0, 1)).unwrap();
    let shifted = cat.register_unit(dim, "sh", "sh", "sh", rat(-5, 2), rat(11, 4)).unwrap();
    for x in [rat(0, 1), rat(13, 5), rat(-9, 7)] {
        for k in [scaled, shifted] {
            let q = Quantity::from_unit(cat.unit(k), x).unwrap();
            assert!(q.to_unit(cat.unit(k)).unwrap().same(&x));
        }
    }
}

#[test]
fn conflicting_symbol_is_refused() {
    let reg = detector();
    let mut cat = detector_units(&reg);
    let r = cat.register_unit(DimVector::new(vec![0, 1]), "adc", "adcs", "adc", rat(1, 1), rat(0, 1));
    assert_eq!(r.unwrap_err(), UnitError::ConflictingSymbol);
    let same_dim = cat.register_unit(DimVector::new(vec![1, 0]), "adc", "adcs", "adc", rat(2, 1), rat(0, 1));
    assert_eq!(same_dim.unwrap(), 3);
    let zero = cat.register_unit(DimVector::new(vec![1, 0]), "z", "z", "z", rat(0, 1), rat(0, 1));
    assert_eq!(zero.unwrap_err(), UnitError::DivisionByZero);
    let wrong = cat.register_unit(DimVector::new(vec![1]), "w", "w", "w", rat(1, 1), rat(0, 1));
    assert_eq!(wrong.unwrap_err(), UnitError::ArityMismatch);
    assert_eq!(cat.len(), 4);
}

#[test]
fn reciprocal_of_zero_fails() {
    let reg = detector();
    let cat = detector_units(&reg);
    let zero = Quantity::from_unit(cat.unit(0), rat(0, 1)).unwrap();
    assert_eq!(zero.recip().unwrap_err(), UnitError::DivisionByZero);
    let one = Quantity::from_unit(cat.unit(0), rat(1, 1)).unwrap();
    assert_eq!(one.div(&zero).unwrap_err(), UnitError::DivisionByZero);
}

#[test]
fn dimensionless_ratio_is_reinterpreted_explicitly() {
    let reg = detector();
    let cat = detector_units(&reg);
    let a = Quantity::from_unit(cat.unit(1), rat(11, 1)).unwrap();
    let b = Quantity::from_unit(cat.unit(1), rat(55, 1)).unwrap();
    let ratio = a.div(&b).unwrap();
    assert!(ratio.dim.is_dimensionless());
    let digits = ratio.reinterpret(&cat.unit(0).dim).unwrap();
    assert_eq!(digits.dim.exps, vec![1, 0]);
    assert!(digits.to_unit(cat.unit(0)).unwrap().same(&rat(1, 5)));
    assert_eq!(a.reinterpret(&cat.unit(0).dim).unwrap_err(), UnitError::DimensionMismatch);
}

#[test]
fn formatting_selects_the_unit_name() {
    let reg = detector();
    let cat = detector_units(&reg);
    let counts = Quantity::from_unit(cat.unit(1), rat(100, 1)).unwrap();
    let digits = Quantity::from_unit(cat.unit(0), rat(50, 1)).unwrap();
    let cal = counts.div(&digits).unwrap();
    assert_eq!(cal.format(cat.unit(2), FormatStyle::Abbreviated).unwrap(), "2 pes/adc");
    assert_eq!(digits.format(cat.unit(0), FormatStyle::Plural).unwrap(), "50 adcs");
    assert_eq!(digits.format(cat.unit(0), FormatStyle::Full).unwrap(), "50 adc");
    let half = cal.recip().unwrap();
    assert_eq!(rational_text(&half.value), "1/2");
    assert_eq!(rational_text(&rat(-6, 4)), "-3/2");
    assert_eq!(digits.format(cat.unit(2), FormatStyle::Full).unwrap_err(), UnitError::DimensionMismatch);
}

#[test]
fn rational_arithmetic_is_exact() {
    let a = rat(1, 3);
    let b = rat(1, 6);
    assert!(a.add(&b).unwrap().same(&rat(1, 2)));
    assert!(a.sub(&b).unwrap().same(&rat(1, 6)));
    assert!(a.mul(&b).unwrap().same(&rat(1, 18)));
    assert!(a.div(&rat(-1, 6)).unwrap().same(&rat(-2, 1)));
    assert_eq!(a.div(&rat(0, 1)).unwrap_err(), UnitError::DivisionByZero);
    assert_eq!(Rational::new(1, 0).unwrap_err(), UnitError::DivisionByZero);
    assert_eq!(Rational::new(3, -4).unwrap(), Rational { num: -3, den: 4 });
    assert_eq!(rat(i64::MAX, 1).add(&rat(1, 1)).unwrap_err(), UnitError::Overflow);
    assert_eq!(rat(12, 18).reduce(), Rational { num: 2, den: 3 });
}

#[test]
fn convert_between_units_of_one_dimension() {
    let reg = mechanics().extend(vec![BaseDimension::new("temperature", "Th", "kelvin")]).unwrap();
    let mut cat = Catalog::new(&reg);
    let len = reg.dimension_vector_of(vec![1, 0, 0, 0]).unwrap();
    let m = cat.register_unit(len.duplicate(), "m", "meters", "meter", rat(1, 1), rat(0, 1)).unwrap();
    let mm = cat.register_prefixed(m, "milli", "m", rat(1, 1000)).unwrap();
    let temp = reg.dimension_vector_of(vec![0, 0, 0, 1]).unwrap();
    let k = cat.register_unit(temp.duplicate(), "K", "kelvins", "kelvin", rat(1, 1), rat(0, 1)).unwrap();
    let c = cat.register_unit(temp, "degC", "degrees Celsius", "degree Celsius", rat(1, 1), rat(27315, 100)).unwrap();
    let f = cat
        .register_unit(reg.dimension_vector_of(vec![0, 0, 0, 1]).unwrap(), "degF", "degrees Fahrenheit", "degree Fahrenheit", rat(5, 9), rat(45967, 180))
        .unwrap();
    assert!(convert(rat(2500, 1), cat.unit(mm), cat.unit(m)).unwrap().same(&rat(5, 2)));
    assert!(convert(rat(100, 1), cat.unit(c), cat.unit(k)).unwrap().same(&rat(37315, 100)));
    assert!(convert(rat(100, 1), cat.unit(c), cat.unit(f)).unwrap().same(&rat(212, 1)));
    assert_eq!(convert(rat(1, 1), cat.unit(m), cat.unit(k)).unwrap_err(), UnitError::DimensionMismatch);
}

#[test]
fn powers_raise_exponents_and_values() {
    let reg = mechanics();
    let mut cat = Catalog::new(&reg);
    let m = cat
        .register_unit(reg.dimension_vector_of(vec![1, 0, 0]).unwrap(), "m", "meters", "meter", rat(1, 1), rat(0, 1))
        .unwrap();
    let side = Quantity::from_unit(cat.unit(m), rat(-3, 2)).unwrap();
    let cube = side.pow(3).unwrap();
    assert_eq!(cube.dim.exps, vec![3, 0, 0]);
    assert!(cube.value.same(&rat(-27, 8)));
    let one = side.pow(0).unwrap();
    assert!(one.dim.is_dimensionless());
    assert!(one.value.same(&rat(1, 1)));
    let big = Quantity::from_unit(cat.unit(m), rat(1 << 40, 1)).unwrap();
    assert_eq!(big.pow(2).unwrap_err(), UnitError::Overflow);
}

#[test]
fn roots_of_exact_powers() {
    let reg = mechanics();
    let mut cat = Catalog::new(&reg);
    let area = cat
        .register_unit(reg.dimension_vector_of(vec![2, 0, 0]).unwrap(), "m2", "square meters", "square meter", rat(1, 1), rat(0, 1))
        .unwrap();
    let volume = cat
        .register_unit(reg.dimension_vector_of(vec![3, 0, 0]).unwrap(), "m3", "cubic meters", "cubic meter", rat(1, 1), rat(0, 1))
        .unwrap();
    let a = Quantity::from_unit(cat.unit(area), rat(18, 8)).unwrap();
    let side = a.root(2).unwrap();
    assert_eq!(side.dim.exps, vec![1, 0, 0]);
    assert_eq!(side.value, rat(3, 2));
    let v = Quantity::from_unit(cat.unit(volume), rat(-27, 8)).unwrap();
    let edge = v.root(3).unwrap();
    assert_eq!(edge.dim.exps, vec![1, 0, 0]);
    assert_eq!(edge.value, rat(-3, 2));
    assert_eq!(a.root(0).unwrap_err(), UnitError::DivisionByZero);
    assert_eq!(v.root(2).unwrap_err(), UnitError::NonIntegerExponent);
    let two = Quantity::from_unit(cat.unit(area), rat(2, 1)).unwrap();
    assert_eq!(two.root(2).unwrap_err(), UnitError::IrrationalRoot);
    let neg = Quantity::from_unit(cat.unit(area), rat(-4, 1)).unwrap();
    assert_eq!(neg.root(2).unwrap_err(), UnitError::IrrationalRoot);
    let third = Quantity::from_unit(cat.unit(area), rat(4, 3)).unwrap();
    assert_eq!(third.root(2).unwrap_err(), UnitError::IrrationalRoot);
}

#[test]
fn signed_powers_invert_for_negative_exponents() {
    let reg = mechanics();
    let mut cat = Catalog::new(&reg);
    let s = cat
        .register_unit(reg.dimension_vector_of(vec![0, 0, 1]).unwrap(), "s", "seconds", "second", rat(1, 1), rat(0, 1))
        .unwrap();
    let t = Quantity::from_unit(cat.unit(s), rat(-2, 3)).unwrap();
    let inv_sq = t.powi(-2).unwrap();
    assert_eq!(inv_sq.dim.exps, vec![0, 0, -2]);
    assert!(inv_sq.value.same(&rat(9, 4)));
    let cube = t.powi(3).unwrap();
    assert_eq!(cube.dim.exps, vec![0, 0, 3]);
    assert!(cube.value.same(&rat(-8, 27)));
    let zero = Quantity::from_unit(cat.unit(s), rat(0, 1)).unwrap();
    assert_eq!(zero.powi(-1).unwrap_err(), UnitError::DivisionByZero);
}
