use vstd::prelude::*;

verus! {

/// Ghost model of a rational number: the fraction `n / d`.
/// Values of this type only appear in specifications; `d > 0` is
/// expected wherever a `Q` stands for an actual coordinate.
pub ghost struct Q {
    pub n: int,
    pub d: int,
}

/// Two fractions denote the same rational number (cross multiplication).
pub open spec fn q_eqv(a: Q, b: Q) -> bool {
    a.n * b.d == b.n * a.d
}

/// Exact sum of two fractions, without reduction.
pub open spec fn q_add(a: Q, b: Q) -> Q {
    Q { n: a.n * b.d + b.n * a.d, d: a.d * b.d }
}

/// Exact difference of two fractions, without reduction.
pub open spec fn q_sub(a: Q, b: Q) -> Q {
    Q { n: a.n * b.d - b.n * a.d, d: a.d * b.d }
}

/// Exact product of two fractions, without reduction.
pub open spec fn q_mul(a: Q, b: Q) -> Q {
    Q { n: a.n * b.n, d: a.d * b.d }
}

/// An exact rational number held as a numerator and a positive
/// denominator.  Coordinates on the complex plane are values of this
/// type, so that the coordinate mapper can be exact instead of rounding.
#[derive(Clone, Copy, Debug, PartialEq, Eq, Structural)]
pub struct Rat {
    pub num: i128,
    pub den: i128,
}

impl Rat {
    /// The fraction this value holds.
    pub open spec fn q(self) -> Q {
        Q { n: self.num as int, d: self.den as int }
    }

    /// Well-formed: the denominator is positive.
    pub open spec fn wf(self) -> bool {
        self.den > 0
    }

    /// Both components lie within `b`, so that products of a few of
    /// them stay inside `i128`.
    pub open spec fn bounded(self, b: int) -> bool {
        &&& -b <= self.num as int <= b
        &&& self.den as int <= b
    }

    pub fn new(num: i128, den: i128) -> (r: Rat)
        requires
            den > 0,
        ensures
            r.num == num,
            r.den == den,
            r.wf(),
    {
        Rat { num, den }
    }

    /// Value equality of two rationals: `self` and `other` denote the
    /// same number, even where numerator and denominator differ.
    pub fn eqv(&self, other: &Rat) -> (r: bool)
        requires
            self.wf(),
            other.wf(),
            self.bounded(0x7fff_ffff_ffff_ffff),
            other.bounded(0x7fff_ffff_ffff_ffff),
        ensures
            r == q_eqv(self.q(), other.q()),
    {
        proof {
            lemma_mul_bound(self.num as int, other.den as int, 0x7fff_ffff_ffff_ffff, 0x7fff_ffff_ffff_ffff);
            lemma_mul_bound(other.num as int, self.den as int, 0x7fff_ffff_ffff_ffff, 0x7fff_ffff_ffff_ffff);
        }
        self.num * other.den == other.num * self.den
    }
}

/// The magnitude of a product is bounded by the product of the bounds.
pub proof fn lemma_mul_bound(a: int, b: int, m1: int, m2: int)
    by (nonlinear_arith)
    requires
        0 <= m1,
        0 <= m2,
        -m1 <= a <= m1,
        -m2 <= b <= m2,
    ensures
        -(m1 * m2) <= a * b <= m1 * m2,
{
}

/// A product of positive factors is positive.
pub proof fn lemma_mul_pos(a: int, b: int)
    by (nonlinear_arith)
    requires
        a > 0,
        b > 0,
    ensures
        a * b > 0,
{
}

} // verus!
