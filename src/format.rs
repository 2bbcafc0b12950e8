use vstd::prelude::*;
use crate::error::UnitError;
use crate::quantity::Quantity;
use crate::rational::{Rational, diff, quot, fits_pair, abs, reduce_spec};
use crate::unit::Unit;
use vstd::string::StringExecFns;

verus! {

/// Which of a unit's names a formatted value carries.
#[derive(Debug, Clone, Copy, PartialEq, Eq, Structural)]
pub enum FormatStyle {
    /// The full name, such as "kilometer".
    Full,
    /// The symbol, such as "km".
    Abbreviated,
    /// The plural name, such as "kilometers".
    Plural,
}

/// The character of a decimal digit.
pub open spec fn digit_char(d: nat) -> char {
    if d == 0 { '0' } else if d == 1 { '1' } else if d == 2 { '2' } else if d == 3 { '3' } else if d
        == 4 { '4' } else if d == 5 { '5' } else if d == 6 { '6' } else if d == 7 { '7' } else if d
        == 8 { '8' } else { '9' }
}

/// The decimal text of a natural number, without leading zeros.
pub open spec fn decimal(n: nat) -> Seq<char>
    decreases n,
{
    if n < 10 {
        seq![digit_char(n)]
    } else {
        decimal(n / 10) + seq![digit_char(n % 10)]
    }
}

/// The decimal text of an integer, with a leading '-' when negative.
pub open spec fn int_text(n: int) -> Seq<char> {
    if n < 0 { seq!['-'] + decimal(abs(n)) } else { decimal(abs(n)) }
}

/// The text of a fraction: "n" when the denominator is 1, else "n/d".
pub open spec fn fraction_text(a: (int, int)) -> Seq<char> {
    if a.1 == 1 { int_text(a.0) } else { int_text(a.0) + seq!['/'] + decimal(abs(a.1)) }
}

/// The name of `unit` that `style` selects.
pub open spec fn unit_label(unit: Unit, style: FormatStyle) -> Seq<char> {
    match style {
        FormatStyle::Full => unit.full_name@,
        FormatStyle::Abbreviated => unit.symbol@,
        FormatStyle::Plural => unit.plural@,
    }
}

fn digit_str(d: u64) -> (r: &'static str)
    requires
        d < 10,
    ensures
        r@ == seq![digit_char(d as nat)],
{
    proof {
        reveal_strlit("0");
        reveal_strlit("1");
        reveal_strlit("2");
        reveal_strlit("3");
        reveal_strlit("4");
        reveal_strlit("5");
        reveal_strlit("6");
        reveal_strlit("7");
        reveal_strlit("8");
        reveal_strlit("9");
    }
    let r = if d == 0 {
        "0"
    } else if d == 1 {
        "1"
    } else if d == 2 {
        "2"
    } else if d == 3 {
        "3"
    } else if d == 4 {
        "4"
    } else if d == 5 {
        "5"
    } else if d == 6 {
        "6"
    } else if d == 7 {
        "7"
    } else if d == 8 {
        "8"
    } else {
        "9"
    };
    assert(r@ =~= seq![digit_char(d as nat)]);
    r
}

fn push_decimal(n: u64, out: &mut String)
    ensures
        final(out)@ == old(out)@ + decimal(n as nat),
    decreases n,
{
    if n >= 10 {
        push_decimal(n / 10, out);
    }
    out.append(digit_str(n % 10));
    proof {
        if n >= 10 {
            assert(decimal(n as nat) == decimal((n / 10) as nat) + seq![digit_char((n % 10) as nat)]);
        } else {
            assert(n % 10 == n);
        }
    }
    assert(final(out)@ =~= old(out)@ + decimal(n as nat));
}

/// The text of a number: its lowest terms as "n", or as "n/d" when the
/// denominator is not 1.
pub fn rational_text(x: &Rational) -> (r: String)
    requires
        x.wf(),
    ensures
        r@ == fraction_text(reduce_spec(x@)),
{
    let q = x.reduce();
    proof {
        reveal_strlit("-");
        reveal_strlit("/");
    }
    let mut out: String = String::new();
    let m: u64 = if q.num < 0 {
        out.append("-");
        (-(q.num as i128)) as u64
    } else {
        q.num as u64
    };
    push_decimal(m, &mut out);
    if q.den != 1 {
        out.append("/");
        push_decimal(q.den as u64, &mut out);
    }
    assert(out@ =~= fraction_text(q@));
    out
}

impl Quantity {
    /// The value expressed in `unit`, followed by a space and the unit's name
    /// that `style` selects.
    pub fn format(&self, unit: &Unit, style: FormatStyle) -> (r: Result<String, UnitError>)
        requires
            self.wf(),
            unit.wf(),
        ensures
            self.dim@ != unit.dim@ <==> r == Err::<String, UnitError>(UnitError::DimensionMismatch),
            (self.dim@ == unit.dim@ && fits_pair(diff(self.value@, unit.offset@)) && fits_pair(
                quot(diff(self.value@, unit.offset@), unit.scale@),
            )) <==> r is Ok,
            r matches Ok(s) ==> s@ == fraction_text(
                reduce_spec(quot(diff(self.value@, unit.offset@), unit.scale@)),
            ) + seq![' '] + unit_label(*unit, style),
            r is Err ==> r == Err::<String, UnitError>(UnitError::DimensionMismatch) || r == Err::<
                String,
                UnitError,
            >(UnitError::Overflow),
    {
        let x = match self.to_unit(unit) {
            Ok(x) => x,
            Err(e) => {
                return Err(e);
            },
        };
        proof {
            reveal_strlit(" ");
        }
        let mut out = rational_text(&x);
        out.append(" ");
        let label: &str = match style {
            FormatStyle::Full => unit.full_name.as_str(),
            FormatStyle::Abbreviated => unit.symbol.as_str(),
            FormatStyle::Plural => unit.plural.as_str(),
        };
        out.append(label);
        assert(out@ =~= fraction_text(reduce_spec(x@)) + seq![' '] + unit_label(*unit, style));
        Ok(out)
    }
}

} // verus!
