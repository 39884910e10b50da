use vstd::prelude::*;
use crate::rat::{Rat, Q, q_add, q_sub, q_mul, q_eqv, lemma_mul_bound, lemma_mul_pos};
use crate::parse::COORD_LIMIT;

verus! {

/// A point of the complex plane with exact rational coordinates.
#[derive(Clone, Copy, Debug, PartialEq, Eq, Structural)]
pub struct Complex {
    pub re: Rat,
    pub im: Rat,
}

impl Complex {
    pub open spec fn wf(self) -> bool {
        self.re.wf() && self.im.wf()
    }

    pub open spec fn bounded(self, b: int) -> bool {
        self.re.bounded(b) && self.im.bounded(b)
    }

}

/// The real coordinate sampled at horizontal pixel position `p` of `n`
/// columns: `ul + (p / n) * (lr - ul)`.
pub open spec fn q_map_re(ul: Q, lr: Q, p: int, n: int) -> Q {
    q_add(ul, q_mul(Q { n: p, d: n }, q_sub(lr, ul)))
}

/// The imaginary coordinate sampled at vertical pixel position `p` of
/// `n` rows: `ul - (p / n) * (ul - lr)`.  Row zero is the top of the
/// image, which is the more positive imaginary value, hence the
/// subtraction.
pub open spec fn q_map_im(ul: Q, lr: Q, p: int, n: int) -> Q {
    q_sub(ul, q_mul(Q { n: p, d: n }, q_sub(ul, lr)))
}

/// Real axis of the mapping, computed exactly: mirrors `q_map_re`.
fn axis_re(a: Rat, b: Rat, p: i128, n: i128) -> (r: Rat)
    requires
        a.wf(),
        b.wf(),
        a.bounded(COORD_LIMIT as int),
        b.bounded(COORD_LIMIT as int),
        0 <= p <= COORD_LIMIT as int,
        1 <= n <= COORD_LIMIT as int,
    ensures
        r.q() == q_map_re(a.q(), b.q(), p as int, n as int),
        r.wf(),
{
    let ghost lim: int = COORD_LIMIT as int;
    proof {
        lemma_mul_bound(b.num as int, a.den as int, lim, lim);
        lemma_mul_bound(a.num as int, b.den as int, lim, lim);
        lemma_mul_bound(b.den as int, a.den as int, lim, lim);
    }
    let wn: i128 = b.num * a.den - a.num * b.den;
    let wd: i128 = b.den * a.den;
    proof {
        lemma_mul_bound(p as int, wn as int, lim, 2 * lim * lim);
        lemma_mul_bound(n as int, wd as int, lim, lim * lim);
    }
    let tn: i128 = p * wn;
    let td: i128 = n * wd;
    proof {
        lemma_mul_bound(a.num as int, td as int, lim, lim * lim * lim);
        lemma_mul_bound(tn as int, a.den as int, 2 * lim * lim * lim, lim);
        lemma_mul_bound(a.den as int, td as int, lim, lim * lim * lim);
        lemma_mul_pos(b.den as int, a.den as int);
        lemma_mul_pos(n as int, wd as int);
        lemma_mul_pos(a.den as int, td as int);
    }
    let rn: i128 = a.num * td + tn * a.den;
    let rd: i128 = a.den * td;
    Rat { num: rn, den: rd }
}

/// Imaginary axis of the mapping, computed exactly: mirrors `q_map_im`.
fn axis_im(a: Rat, b: Rat, p: i128, n: i128) -> (r: Rat)
    requires
        a.wf(),
        b.wf(),
        a.bounded(COORD_LIMIT as int),
        b.bounded(COORD_LIMIT as int),
        0 <= p <= COORD_LIMIT as int,
        1 <= n <= COORD_LIMIT as int,
    ensures
        r.q() == q_map_im(a.q(), b.q(), p as int, n as int),
        r.wf(),
{
    let ghost lim: int = COORD_LIMIT as int;
    proof {
        lemma_mul_bound(a.num as int, b.den as int, lim, lim);
        lemma_mul_bound(b.num as int, a.den as int, lim, lim);
        lemma_mul_bound(a.den as int, b.den as int, lim, lim);
    }
    let wn: i128 = a.num * b.den - b.num * a.den;
    let wd: i128 = a.den * b.den;
    proof {
        lemma_mul_bound(p as int, wn as int, lim, 2 * lim * lim);
        lemma_mul_bound(n as int, wd as int, lim, lim * lim);
    }
    let tn: i128 = p * wn;
    let td: i128 = n * wd;
    proof {
        lemma_mul_bound(a.num as int, td as int, lim, lim * lim * lim);
        lemma_mul_bound(tn as int, a.den as int, 2 * lim * lim * lim, lim);
        lemma_mul_bound(a.den as int, td as int, lim, lim * lim * lim);
        lemma_mul_pos(a.den as int, b.den as int);
        lemma_mul_pos(n as int, wd as int);
        lemma_mul_pos(a.den as int, td as int);
    }
    let rn: i128 = a.num * td - tn * a.den;
    let rd: i128 = a.den * td;
    Rat { num: rn, den: rd }
}

/// Maps a pixel position to the complex-plane point sampled there.
///
/// The viewport is given by its upper-left and lower-right corners; the
/// horizontal pixel position interpolates the real axis and the
/// vertical position interpolates the imaginary axis downward from the
/// upper-left corner.  The function is total over its domain: pixel
/// positions at or beyond the bounds simply extrapolate.
pub fn pixel_to_point(
    bounds: (usize, usize),
    pixel: (usize, usize),
    upper_left: Complex,
    lower_right: Complex,
) -> (r: Complex)
    requires
        1 <= bounds.0 as int <= COORD_LIMIT as int,
        1 <= bounds.1 as int <= COORD_LIMIT as int,
        pixel.0 as int <= COORD_LIMIT as int,
        pixel.1 as int <= COORD_LIMIT as int,
        upper_left.wf(),
        lower_right.wf(),
        upper_left.bounded(COORD_LIMIT as int),
        lower_right.bounded(COORD_LIMIT as int),
    ensures
        r.re.q() == q_map_re(upper_left.re.q(), lower_right.re.q(), pixel.0 as int, bounds.0 as int),
        r.im.q() == q_map_im(upper_left.im.q(), lower_right.im.q(), pixel.1 as int, bounds.1 as int),
        r.wf(),
{
    let re = axis_re(upper_left.re, lower_right.re, pixel.0 as i128, bounds.0 as i128);
    let im = axis_im(upper_left.im, lower_right.im, pixel.1 as i128, bounds.1 as i128);
    Complex { re, im }
}

/// Law: pixel (0, 0) maps exactly to the upper-left viewport corner,
/// whatever the pixel bounds and whatever the viewport.
pub proof fn lemma_origin_pixel_maps_to_upper_left(ul: Q, lr: Q, bw: int, bh: int)
    requires
        bw >= 1,
        bh >= 1,
        ul.d > 0,
        lr.d > 0,
    ensures
        q_eqv(q_map_re(ul, lr, 0, bw), ul),
        q_eqv(q_map_im(ul, lr, 0, bh), ul),
{
    let re = q_map_re(ul, lr, 0, bw);
    let im = q_map_im(ul, lr, 0, bh);
    assert(re.n * ul.d == ul.n * re.d) by (nonlinear_arith)
        requires
            re == q_add(ul, q_mul(Q { n: 0, d: bw }, q_sub(lr, ul))),
    ;
    assert(im.n * ul.d == ul.n * im.d) by (nonlinear_arith)
        requires
            im == q_sub(ul, q_mul(Q { n: 0, d: bh }, q_sub(ul, lr))),
    ;
}

} // verus!
