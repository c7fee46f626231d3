use vstd::prelude::*;

verus! {

/// Mathematical model of a rational number: an integer numerator over a
/// positive integer denominator. Spec-level only; executable code carries
/// the value as a `Rat`.
pub struct Ratio {
    pub num: int,
    pub den: int,
}

impl Ratio {
    /// A ratio is well formed when its denominator is positive.
    pub open spec fn wf(self) -> bool {
        self.den > 0
    }

    /// The ratio standing for the integer `n`.
    pub open spec fn from_int(n: int) -> Ratio {
        Ratio { num: n, den: 1 }
    }
}

/// Two ratios stand for the same number exactly when cross-multiplication
/// agrees: a/b == c/d iff a*d == c*b (for positive denominators).
pub open spec fn eqv(a: Ratio, b: Ratio) -> bool {
    a.num * b.den == b.num * a.den
}

/// An exact rational number. Observations and averages are carried as these;
/// the representation is not kept reduced, so equality compares the values,
/// not the fields.
#[derive(Clone, Copy, Debug)]
pub struct Rat {
    pub num: i64,
    pub den: i64,
}

impl View for Rat {
    type V = Ratio;

    open spec fn view(&self) -> Ratio {
        Ratio { num: self.num as int, den: self.den as int }
    }
}

impl Rat {
    /// The rational `num / den`.
    pub fn new(num: i64, den: i64) -> (r: Rat)
        requires
            den > 0,
        ensures
            r@ == (Ratio { num: num as int, den: den as int }),
            r@.wf(),
    {
        Rat { num, den }
    }

    /// The rational standing for the integer `n`.
    pub fn from_int(n: i64) -> (r: Rat)
        ensures
            r@ == Ratio::from_int(n as int),
            r@.wf(),
    {
        Rat { num: n, den: 1 }
    }
}

proof fn lemma_i64_product_fits_i128(x: int, y: int)
    requires
        -0x8000_0000_0000_0000 <= x <= 0x7fff_ffff_ffff_ffff,
        -0x8000_0000_0000_0000 <= y <= 0x7fff_ffff_ffff_ffff,
    ensures
        -0x8000_0000_0000_0000_0000_0000_0000_0000 <= x * y
            <= 0x7fff_ffff_ffff_ffff_ffff_ffff_ffff_ffff,
{
    assert(-0x8000_0000_0000_0000_0000_0000_0000_0000 <= x * y
        <= 0x7fff_ffff_ffff_ffff_ffff_ffff_ffff_ffff) by (nonlinear_arith)
        requires
            -0x8000_0000_0000_0000 <= x <= 0x7fff_ffff_ffff_ffff,
            -0x8000_0000_0000_0000 <= y <= 0x7fff_ffff_ffff_ffff,
    ;
}

impl PartialEq for Rat {
    /// Equality of the numbers, not of the representations: 1/2 == 2/4.
    fn eq(&self, other: &Rat) -> (r: bool) {
        proof {
            lemma_i64_product_fits_i128(self.num as int, other.den as int);
            lemma_i64_product_fits_i128(other.num as int, self.den as int);
        }
        (self.num as i128) * (other.den as i128) == (other.num as i128) * (self.den as i128)
    }
}

impl vstd::std_specs::cmp::PartialEqSpecImpl for Rat {
    open spec fn obeys_eq_spec() -> bool {
        true
    }

    open spec fn eq_spec(&self, other: &Rat) -> bool {
        eqv(self@, other@)
    }
}

} // verus!
