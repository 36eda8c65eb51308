//! Fitting parameters by ascent on a likelihood: finite differences for
//! slopes and curvatures, a fixed-rate gradient ascent, and intervals of
//! confidence.
//!
//! The function to be fitted is the caller's. The library promises nothing
//! of its values: each contract says for which lists of parameters it was
//! asked, and what was made of the answers.

use crate::arith::{
    is_count, is_real_difference, is_real_product, is_real_quotient, is_real_root, is_real_sum,
    is_real_total, is_whole_part, real_total, Arithmetic,
};
use crate::error::{EngineError, ValidationFault};
use crate::ode::TWO_BITS;
use crate::scalar::{Real, INFINITY_BITS, ONE_BITS};
use crate::stats::FitResult;
use crate::streaming::HUNDREDTH_BITS;
use rand::seq::SliceRandom;
use vstd::prelude::*;

verus! {

/// `out` is what `f` gave for a list of parameters that reads `v`.
pub open spec fn is_value<F: Fn(&Vec<Real>) -> Result<Real, EngineError>>(
    f: &F,
    v: Seq<Real>,
    out: Result<Real, EngineError>,
) -> bool {
    exists|w: Vec<Real>| w@ == v && #[trigger] f.ensures((&w,), out)
}

/// `f` can be asked for every list of parameters.
pub open spec fn is_total_function<F: Fn(&Vec<Real>) -> Result<Real, EngineError>>(f: &F) -> bool {
    forall|w: Vec<Real>| #[trigger] f.requires((&w,))
}

/// A copy of `params` with `value` at place `i`.
fn with_value(params: &Vec<Real>, i: usize, value: Real) -> (r: Vec<Real>)
    requires
        i < params@.len(),
    ensures
        r@ == params@.update(i as int, value),
{
    let mut out: Vec<Real> = Vec::new();
    let mut k: usize = 0;
    while k < params.len()
        invariant
            k <= params@.len(),
            i < params@.len(),
            out@.len() == k,
            forall|p: int| 0 <= p < k ==> out@[p] == params@.update(i as int, value)[p],
        decreases params@.len() - k,
    {
        if k == i {
            out.push(value);
        } else {
            out.push(params[k]);
        }
        k += 1;
    }
    assert(out@ =~= params@.update(i as int, value));
    out
}

/// `x` is `(a - b) / (2 eps)`: the slope between two values of a function
/// taken `2 eps` apart.
pub open spec fn is_central<A: Arithmetic>(ar: &A, a: Real, b: Real, eps: Real, x: Real) -> bool {
    exists|diff: Real, width: Real|
        #![trigger is_real_difference(ar, a, b, diff), is_real_quotient(ar, diff, width, x)]
        is_real_difference(ar, a, b, diff) && is_real_product(
            ar,
            Real { bits: TWO_BITS },
            eps,
            width,
        ) && is_real_quotient(ar, diff, width, x)
}

/// What the slope between `plus` and `minus` comes to: the error of `f` at
/// `plus`, else its error at `minus`, else the slope between its values.
pub open spec fn is_slope<A: Arithmetic, F: Fn(&Vec<Real>) -> Result<Real, EngineError>>(
    ar: &A,
    f: &F,
    plus: Seq<Real>,
    minus: Seq<Real>,
    eps: Real,
    g: Result<Real, EngineError>,
) -> bool {
    exists|above: Result<Real, EngineError>| #[trigger]
        is_value(f, plus, above) && match above {
            Err(e) => g == Err::<Real, EngineError>(e),
            Ok(a) => exists|below: Result<Real, EngineError>| #[trigger]
                is_value(f, minus, below) && match below {
                    Err(e) => g == Err::<Real, EngineError>(e),
                    Ok(b) => g is Ok && is_central(ar, a, b, eps, g->Ok_0),
                },
        }
}

/// What the partial derivative of `f` by parameter `i` comes to: the slope
/// between the parameters with `params[i] + eps` and with `params[i] - eps`
/// at place `i`.
pub open spec fn is_partial<A: Arithmetic, F: Fn(&Vec<Real>) -> Result<Real, EngineError>>(
    ar: &A,
    f: &F,
    params: Seq<Real>,
    eps: Real,
    i: int,
    g: Result<Real, EngineError>,
) -> bool {
    exists|up: Real, down: Real|
        #![trigger is_real_sum(ar, params[i], eps, up), is_real_difference(ar, params[i], eps, down)]
        is_real_sum(ar, params[i], eps, up) && is_real_difference(ar, params[i], eps, down)
            && is_slope(ar, f, params.update(i, up), params.update(i, down), eps, g)
}

/// `g` holds the partial derivatives by the first parameters.
pub open spec fn are_partials<A: Arithmetic, F: Fn(&Vec<Real>) -> Result<Real, EngineError>>(
    ar: &A,
    f: &F,
    params: Seq<Real>,
    eps: Real,
    g: Seq<Real>,
) -> bool {
    &&& g.len() <= params.len()
    &&& forall|i: int|
        0 <= i < g.len() ==> #[trigger] is_partial(
            ar,
            f,
            params,
            eps,
            i,
            Ok::<Real, EngineError>(g[i]),
        )
}

/// The gradient fails with `e`: some partial derivatives were computed, and
/// the next gave this error.
pub open spec fn gradient_fails<A: Arithmetic, F: Fn(&Vec<Real>) -> Result<Real, EngineError>>(
    ar: &A,
    f: &F,
    params: Seq<Real>,
    eps: Real,
    e: EngineError,
) -> bool {
    exists|g: Seq<Real>| #[trigger]
        are_partials(ar, f, params, eps, g) && g.len() < params.len() && is_partial(
            ar,
            f,
            params,
            eps,
            g.len() as int,
            Err::<Real, EngineError>(e),
        )
}

/// What [`compute_gradient`] gives: the partial derivatives by all
/// parameters, or the error of the first that fails.
pub open spec fn is_gradient_outcome<
    A: Arithmetic,
    F: Fn(&Vec<Real>) -> Result<Real, EngineError>,
>(ar: &A, f: &F, params: Seq<Real>, eps: Real, r: Result<Vec<Real>, EngineError>) -> bool {
    match r {
        Ok(g) => g@.len() == params.len() && are_partials(ar, f, params, eps, g@),
        Err(e) => gradient_fails(ar, f, params, eps, e),
    }
}

/// The gradient of `f` at `params` by central differences of half-width
/// `epsilon`: for each parameter, `(f(.. + ε ..) - f(.. - ε ..)) / (2 ε)`.
pub fn compute_gradient<A: Arithmetic, F: Fn(&Vec<Real>) -> Result<Real, EngineError>>(
    ar: &A,
    f: &F,
    params: &Vec<Real>,
    epsilon: Real,
) -> (r: Result<Vec<Real>, EngineError>)
    requires
        is_total_function(f),
    ensures
        is_gradient_outcome(ar, f, params@, epsilon, r),
{
    let mut gradient: Vec<Real> = Vec::new();
    let mut i: usize = 0;
    while i < params.len()
        invariant
            i <= params@.len(),
            gradient@.len() == i,
            is_total_function(f),
            are_partials(ar, f, params@, epsilon, gradient@),
        decreases params@.len() - i,
    {
        let up = ar.add_real(params[i], epsilon);
        let down = ar.sub_real(params[i], epsilon);
        let plus = with_value(params, i, up);
        let minus = with_value(params, i, down);
        assert(f.requires((&plus,)));
        let above = f(&plus);
        assert(is_value(f, params@.update(i as int, up), above));
        let a = match above {
            Ok(a) => a,
            Err(e) => {
                assert(is_slope(
                    ar,
                    f,
                    params@.update(i as int, up),
                    params@.update(i as int, down),
                    epsilon,
                    Err::<Real, EngineError>(e),
                ));
                assert(is_real_sum(ar, params@[i as int], epsilon, up) && is_real_difference(
                    ar,
                    params@[i as int],
                    epsilon,
                    down,
                ));
                assert(is_partial(ar, f, params@, epsilon, i as int, Err::<Real, EngineError>(e)));
                return Err(e);
            },
        };
        assert(f.requires((&minus,)));
        let below = f(&minus);
        assert(is_value(f, params@.update(i as int, down), below));
        let b = match below {
            Ok(b) => b,
            Err(e) => {
                assert(is_slope(
                    ar,
                    f,
                    params@.update(i as int, up),
                    params@.update(i as int, down),
                    epsilon,
                    Err::<Real, EngineError>(e),
                ));
                assert(is_real_sum(ar, params@[i as int], epsilon, up) && is_real_difference(
                    ar,
                    params@[i as int],
                    epsilon,
                    down,
                ));
                assert(is_partial(ar, f, params@, epsilon, i as int, Err::<Real, EngineError>(e)));
                return Err(e);
            },
        };
        let diff = ar.sub_real(a, b);
        let width = ar.mul_real(Real::from_bits(TWO_BITS), epsilon);
        let x = ar.div_real(diff, width);
        assert(is_real_difference(ar, a, b, diff) && is_real_quotient(ar, diff, width, x));
        assert(is_central(ar, a, b, epsilon, x));
        assert(is_slope(
            ar,
            f,
            params@.update(i as int, up),
            params@.update(i as int, down),
            epsilon,
            Ok::<Real, EngineError>(x),
        ));
        assert(is_real_sum(ar, params@[i as int], epsilon, up) && is_real_difference(
            ar,
            params@[i as int],
            epsilon,
            down,
        ));
        assert(is_partial(ar, f, params@, epsilon, i as int, Ok::<Real, EngineError>(x)));
        gradient.push(x);
        i += 1;
    }
    Ok(gradient)
}

/// The bits of 4.
pub const FOUR_BITS: u64 = 0x4010_0000_0000_0000;

/// `r` is `a + eps` where `up` holds, and `a - eps` where it does not.
pub open spec fn is_nudge<A: Arithmetic>(ar: &A, a: Real, eps: Real, up: bool, r: Real) -> bool {
    if up {
        is_real_sum(ar, a, eps, r)
    } else {
        is_real_difference(ar, a, eps, r)
    }
}

/// `out` reads as `params` after parameter `i` was moved by `eps`, up or
/// down as `first` says, and then parameter `j` as `second` says.
pub open spec fn is_nudged_twice<A: Arithmetic>(
    ar: &A,
    params: Seq<Real>,
    eps: Real,
    i: int,
    first: bool,
    j: int,
    second: bool,
    out: Seq<Real>,
) -> bool {
    exists|x: Real, y: Real|
        #![trigger is_nudge(ar, params[i], eps, first, x), is_nudge(ar, params.update(i, x)[j], eps, second, y)]
        is_nudge(ar, params[i], eps, first, x) && is_nudge(
            ar,
            params.update(i, x)[j],
            eps,
            second,
            y,
        ) && out == params.update(i, x).update(j, y)
}

/// `out` is what `f` gave for the parameters after two such moves.
pub open spec fn is_corner<A: Arithmetic, F: Fn(&Vec<Real>) -> Result<Real, EngineError>>(
    ar: &A,
    f: &F,
    params: Seq<Real>,
    eps: Real,
    i: int,
    first: bool,
    j: int,
    second: bool,
    out: Result<Real, EngineError>,
) -> bool {
    exists|at: Seq<Real>| #[trigger]
        is_nudged_twice(ar, params, eps, i, first, j, second, at) && is_value(f, at, out)
}

fn nudge<A: Arithmetic>(ar: &A, a: Real, eps: Real, up: bool) -> (r: Real)
    ensures
        is_nudge(ar, a, eps, up, r),
{
    if up {
        ar.add_real(a, eps)
    } else {
        ar.sub_real(a, eps)
    }
}

fn corner<A: Arithmetic, F: Fn(&Vec<Real>) -> Result<Real, EngineError>>(
    ar: &A,
    f: &F,
    params: &Vec<Real>,
    eps: Real,
    i: usize,
    first: bool,
    j: usize,
    second: bool,
) -> (out: Result<Real, EngineError>)
    requires
        is_total_function(f),
        i < params@.len(),
        j < params@.len(),
    ensures
        is_corner(ar, f, params@, eps, i as int, first, j as int, second, out),
{
    let x = nudge(ar, params[i], eps, first);
    let once = with_value(params, i, x);
    let y = nudge(ar, once[j], eps, second);
    let twice = with_value(&once, j, y);
    assert(is_nudge(ar, params@[i as int], eps, first, x) && is_nudge(
        ar,
        params@.update(i as int, x)[j as int],
        eps,
        second,
        y,
    ));
    assert(is_nudged_twice(ar, params@, eps, i as int, first, j as int, second, twice@));
    assert(f.requires((&twice,)));
    let out = f(&twice);
    assert(is_value(f, twice@, out));
    out
}

/// `x` is `(a - 2 c + b) / (eps eps)`: the curvature through three values
/// of a function taken `eps` apart.
pub open spec fn is_second_difference<A: Arithmetic>(
    ar: &A,
    a: Real,
    c: Real,
    b: Real,
    eps: Real,
    x: Real,
) -> bool {
    exists|twice: Real, left: Real, top: Real, width: Real|
        #![trigger
            is_real_difference(ar, a, twice, left),
            is_real_sum(ar, left, b, top),
            is_real_quotient(ar, top, width, x)]
        is_real_product(ar, Real { bits: TWO_BITS }, c, twice) && is_real_difference(
            ar,
            a,
            twice,
            left,
        ) && is_real_sum(ar, left, b, top) && is_real_product(ar, eps, eps, width)
            && is_real_quotient(ar, top, width, x)
}

/// `x` is `(pp - pm - mp + mm) / (4 eps eps)`: the mixed curvature through
/// four values of a function at the corners of a square of side `2 eps`.
pub open spec fn is_mixed_difference<A: Arithmetic>(
    ar: &A,
    pp: Real,
    pm: Real,
    mp: Real,
    mm: Real,
    eps: Real,
    x: Real,
) -> bool {
    exists|d1: Real, d2: Real, top: Real, w1: Real, width: Real|
        #![trigger
            is_real_difference(ar, d1, mp, d2),
            is_real_sum(ar, d2, mm, top),
            is_real_product(ar, w1, eps, width)]
        is_real_difference(ar, pp, pm, d1) && is_real_difference(ar, d1, mp, d2) && is_real_sum(
            ar,
            d2,
            mm,
            top,
        ) && is_real_product(ar, Real { bits: FOUR_BITS }, eps, w1) && is_real_product(
            ar,
            w1,
            eps,
            width,
        ) && is_real_quotient(ar, top, width, x)
}

/// What the second derivative by parameter `i` comes to, `center` being
/// the value of `f` at `params`: the error of `f` at the parameters with
/// `i` moved up twice, else at those with `i` moved down twice, else the
/// curvature through the three values.
pub open spec fn is_diagonal_entry<A: Arithmetic, F: Fn(&Vec<Real>) -> Result<Real, EngineError>>(
    ar: &A,
    f: &F,
    params: Seq<Real>,
    eps: Real,
    center: Real,
    i: int,
    r: Result<Real, EngineError>,
) -> bool {
    exists|above: Result<Real, EngineError>| #[trigger]
        is_corner(ar, f, params, eps, i, true, i, true, above) && match above {
            Err(e) => r == Err::<Real, EngineError>(e),
            Ok(a) => exists|below: Result<Real, EngineError>| #[trigger]
                is_corner(ar, f, params, eps, i, false, i, false, below) && match below {
                    Err(e) => r == Err::<Real, EngineError>(e),
                    Ok(b) => r is Ok && is_second_difference(ar, a, center, b, eps, r->Ok_0),
                },
        }
}

/// `out` is what `f` gave at corner `k` around `params` in the directions
/// of the parameters `i` and `j`: the corners are up-up, up-down, down-up
/// and down-down.
pub open spec fn is_corner_number<A: Arithmetic, F: Fn(&Vec<Real>) -> Result<Real, EngineError>>(
    ar: &A,
    f: &F,
    params: Seq<Real>,
    eps: Real,
    i: int,
    j: int,
    k: int,
    out: Result<Real, EngineError>,
) -> bool {
    is_corner(ar, f, params, eps, i, k < 2, j, k % 2 == 0, out)
}

/// The values of `f` at the four corners around `params` in the
/// directions of the parameters `i` and `j`, as far as `f` was asked: it
/// is asked for up-up, up-down, down-up and down-down in turn, until it
/// gives an error.
pub open spec fn are_corners<A: Arithmetic, F: Fn(&Vec<Real>) -> Result<Real, EngineError>>(
    ar: &A,
    f: &F,
    params: Seq<Real>,
    eps: Real,
    i: int,
    j: int,
    corners: Seq<Result<Real, EngineError>>,
) -> bool {
    &&& 1 <= corners.len() <= 4
    &&& forall|k: int| 0 <= k < corners.len() - 1 ==> (#[trigger] corners[k]) is Ok
    &&& corners.len() < 4 ==> corners.last() is Err
    &&& forall|k: int|
        0 <= k < corners.len() ==> #[trigger] is_corner_number(
            ar,
            f,
            params,
            eps,
            i,
            j,
            k,
            corners[k],
        )
}

/// What the mixed derivative by the parameters `i` and `j` comes to: the
/// first error among the four corners, else the mixed curvature through
/// their values.
pub open spec fn is_mixed_entry<A: Arithmetic, F: Fn(&Vec<Real>) -> Result<Real, EngineError>>(
    ar: &A,
    f: &F,
    params: Seq<Real>,
    eps: Real,
    i: int,
    j: int,
    r: Result<Real, EngineError>,
) -> bool {
    exists|corners: Seq<Result<Real, EngineError>>| #[trigger]
        are_corners(ar, f, params, eps, i, j, corners) && match corners.last() {
            Err(e) => r == Err::<Real, EngineError>(e),
            Ok(mm) => r is Ok && is_mixed_difference(
                ar,
                corners[0]->Ok_0,
                corners[1]->Ok_0,
                corners[2]->Ok_0,
                mm,
                eps,
                r->Ok_0,
            ),
        }
}

/// What element `(i, j)` of the matrix of second derivatives comes to.
pub open spec fn is_hessian_entry<A: Arithmetic, F: Fn(&Vec<Real>) -> Result<Real, EngineError>>(
    ar: &A,
    f: &F,
    params: Seq<Real>,
    eps: Real,
    center: Real,
    i: int,
    j: int,
    r: Result<Real, EngineError>,
) -> bool {
    if i == j {
        is_diagonal_entry(ar, f, params, eps, center, i, r)
    } else {
        is_mixed_entry(ar, f, params, eps, i, j, r)
    }
}

fn diagonal_entry<A: Arithmetic, F: Fn(&Vec<Real>) -> Result<Real, EngineError>>(
    ar: &A,
    f: &F,
    params: &Vec<Real>,
    eps: Real,
    center: Real,
    i: usize,
) -> (r: Result<Real, EngineError>)
    requires
        is_total_function(f),
        i < params@.len(),
    ensures
        is_diagonal_entry(ar, f, params@, eps, center, i as int, r),
{
    let above = corner(ar, f, params, eps, i, true, i, true);
    let a = match above {
        Ok(a) => a,
        Err(e) => {
            return Err(e);
        },
    };
    let below = corner(ar, f, params, eps, i, false, i, false);
    let b = match below {
        Ok(b) => b,
        Err(e) => {
            assert(is_corner(ar, f, params@, eps, i as int, true, i as int, true, above)
                && is_corner(ar, f, params@, eps, i as int, false, i as int, false, below));
            return Err(e);
        },
    };
    let twice = ar.mul_real(Real::from_bits(TWO_BITS), center);
    let left = ar.sub_real(a, twice);
    let top = ar.add_real(left, b);
    let width = ar.mul_real(eps, eps);
    let x = ar.div_real(top, width);
    assert(is_real_difference(ar, a, twice, left) && is_real_sum(ar, left, b, top)
        && is_real_quotient(ar, top, width, x));
    assert(is_second_difference(ar, a, center, b, eps, x));
    assert(is_corner(ar, f, params@, eps, i as int, true, i as int, true, above) && is_corner(
        ar,
        f,
        params@,
        eps,
        i as int,
        false,
        i as int,
        false,
        below,
    ));
    Ok(x)
}

fn mixed_entry<A: Arithmetic, F: Fn(&Vec<Real>) -> Result<Real, EngineError>>(
    ar: &A,
    f: &F,
    params: &Vec<Real>,
    eps: Real,
    i: usize,
    j: usize,
) -> (r: Result<Real, EngineError>)
    requires
        is_total_function(f),
        i < params@.len(),
        j < params@.len(),
    ensures
        is_mixed_entry(ar, f, params@, eps, i as int, j as int, r),
{
    let ghost mut corners: Seq<Result<Real, EngineError>> = Seq::empty();
    let mut values: Vec<Real> = Vec::new();
    let mut k: usize = 0;
    while k < 4
        invariant
            k <= 4,
            is_total_function(f),
            i < params@.len(),
            j < params@.len(),
            corners.len() == k,
            values@.len() == k,
            forall|p: int| 0 <= p < k ==> (#[trigger] corners[p]) == Ok::<Real, EngineError>(
                values@[p],
            ),
            forall|p: int|
                0 <= p < k ==> #[trigger] is_corner_number(
                    ar,
                    f,
                    params@,
                    eps,
                    i as int,
                    j as int,
                    p,
                    corners[p],
                ),
        decreases 4 - k,
    {
        let out = corner(ar, f, params, eps, i, k < 2, j, k % 2 == 0);
        proof {
            corners = corners.push(out);
            assert(is_corner_number(ar, f, params@, eps, i as int, j as int, k as int, out));
        }
        match out {
            Ok(v) => {
                values.push(v);
            },
            Err(e) => {
                assert(are_corners(ar, f, params@, eps, i as int, j as int, corners));
                return Err(e);
            },
        }
        k += 1;
    }
    let d1 = ar.sub_real(values[0], values[1]);
    let d2 = ar.sub_real(d1, values[2]);
    let top = ar.add_real(d2, values[3]);
    let w1 = ar.mul_real(Real::from_bits(FOUR_BITS), eps);
    let width = ar.mul_real(w1, eps);
    let x = ar.div_real(top, width);
    assert(is_real_difference(ar, d1, values@[2], d2) && is_real_sum(ar, d2, values@[3], top)
        && is_real_product(ar, w1, eps, width));
    assert(is_mixed_difference(ar, values@[0], values@[1], values@[2], values@[3], eps, x));
    assert(are_corners(ar, f, params@, eps, i as int, j as int, corners));
    assert(corners.last() == Ok::<Real, EngineError>(values@[3]));
    Ok(x)
}

/// The rows of a list of lists.
pub open spec fn grid(rows: Seq<Vec<Real>>) -> Seq<Seq<Real>> {
    Seq::new(rows.len(), |i: int| rows[i]@)
}

/// `h` is the matrix of second derivatives of `f` at `params`: square,
/// symmetric, and each element on or above the diagonal what
/// [`is_hessian_entry`] says, for one value of `f` at `params`.
pub open spec fn is_hessian<A: Arithmetic, F: Fn(&Vec<Real>) -> Result<Real, EngineError>>(
    ar: &A,
    f: &F,
    params: Seq<Real>,
    eps: Real,
    h: Seq<Seq<Real>>,
) -> bool {
    &&& h.len() == params.len()
    &&& forall|i: int| 0 <= i < h.len() ==> (#[trigger] h[i]).len() == params.len()
    &&& exists|center: Real| #[trigger]
        is_value(f, params, Ok::<Real, EngineError>(center)) && forall|i: int, j: int|
            0 <= i <= j < params.len() ==> #[trigger] is_hessian_entry(
                ar,
                f,
                params,
                eps,
                center,
                i,
                j,
                Ok::<Real, EngineError>(h[i][j]),
            )
    &&& forall|i: int, j: int| 0 <= i <= j < params.len() ==> #[trigger] h[j][i] == h[i][j]
}

/// Element `(i, j)` of the matrix of second derivatives gave the error `e`,
/// `center` being the value of `f` at `params`.
pub open spec fn hessian_fails<A: Arithmetic, F: Fn(&Vec<Real>) -> Result<Real, EngineError>>(
    ar: &A,
    f: &F,
    params: Seq<Real>,
    eps: Real,
    center: Real,
    i: int,
    j: int,
    e: EngineError,
) -> bool {
    &&& is_value(f, params, Ok::<Real, EngineError>(center))
    &&& 0 <= i <= j < params.len()
    &&& is_hessian_entry(ar, f, params, eps, center, i, j, Err::<Real, EngineError>(e))
}

/// The matrix of second derivatives fails with `e`: the error that `f`
/// gave at `params` or for one of the elements.
pub open spec fn hessian_error<A: Arithmetic, F: Fn(&Vec<Real>) -> Result<Real, EngineError>>(
    ar: &A,
    f: &F,
    params: Seq<Real>,
    eps: Real,
    e: EngineError,
) -> bool {
    is_value(f, params, Err::<Real, EngineError>(e)) || exists|center: Real, i: int, j: int| #[trigger]
        hessian_fails(ar, f, params, eps, center, i, j, e)
}

/// What [`compute_hessian`] gives: the matrix of second derivatives, or the
/// error that `f` gave at `params` or for one of the elements.
pub open spec fn is_hessian_outcome<A: Arithmetic, F: Fn(&Vec<Real>) -> Result<Real, EngineError>>(
    ar: &A,
    f: &F,
    params: Seq<Real>,
    eps: Real,
    r: Result<Vec<Vec<Real>>, EngineError>,
) -> bool {
    match r {
        Ok(h) => is_hessian(ar, f, params, eps, grid(h@)),
        Err(e) => hessian_error(ar, f, params, eps, e),
    }
}

/// The matrix of second derivatives of `f` at `params` by finite
/// differences of width `epsilon`: on the diagonal
/// `(f(.. + 2ε ..) - 2 f + f(.. - 2ε ..)) / ε²`, elsewhere
/// `(f(+,+) - f(+,-) - f(-,+) + f(-,-)) / (4 ε²)`. The elements above the
/// diagonal are computed, row by row, and mirrored.
pub fn compute_hessian<A: Arithmetic, F: Fn(&Vec<Real>) -> Result<Real, EngineError>>(
    ar: &A,
    f: &F,
    params: &Vec<Real>,
    epsilon: Real,
) -> (r: Result<Vec<Vec<Real>>, EngineError>)
    requires
        is_total_function(f),
    ensures
        is_hessian_outcome(ar, f, params@, epsilon, r),
{
    let n: usize = params.len();
    assert(f.requires((params,)));
    let middle = f(params);
    assert(is_value(f, params@, middle));
    let center = match middle {
        Ok(c) => c,
        Err(e) => {
            return Err(e);
        },
    };
    let mut upper: Vec<Vec<Real>> = Vec::new();
    let mut i: usize = 0;
    while i < n
        invariant
            i <= n,
            n == params@.len(),
            is_total_function(f),
            is_value(f, params@, Ok::<Real, EngineError>(center)),
            upper@.len() == i,
            forall|a: int| 0 <= a < i ==> (#[trigger] upper@[a])@.len() == n - a,
            forall|a: int, b: int|
                0 <= a < i && a <= b < n ==> #[trigger] is_hessian_entry(
                    ar,
                    f,
                    params@,
                    epsilon,
                    center,
                    a,
                    b,
                    Ok::<Real, EngineError>(upper@[a]@[b - a]),
                ),
        decreases n - i,
    {
        let mut row: Vec<Real> = Vec::new();
        let mut j: usize = i;
        while j < n
            invariant
                i <= j <= n,
                i < n,
                n == params@.len(),
                is_total_function(f),
                is_value(f, params@, Ok::<Real, EngineError>(center)),
                row@.len() == j - i,
                forall|b: int|
                    i <= b < j ==> #[trigger] is_hessian_entry(
                        ar,
                        f,
                        params@,
                        epsilon,
                        center,
                        i as int,
                        b,
                        Ok::<Real, EngineError>(row@[b - i]),
                    ),
            decreases n - j,
        {
            let entry = if i == j {
                diagonal_entry(ar, f, params, epsilon, center, i)
            } else {
                mixed_entry(ar, f, params, epsilon, i, j)
            };
            assert(is_hessian_entry(ar, f, params@, epsilon, center, i as int, j as int, entry));
            match entry {
                Ok(x) => {
                    row.push(x);
                },
                Err(e) => {
                    assert(hessian_fails(ar, f, params@, epsilon, center, i as int, j as int, e));
                    return Err(e);
                },
            }
            j += 1;
        }
        upper.push(row);
        i += 1;
    }
    let mut hessian: Vec<Vec<Real>> = Vec::new();
    let mut a: usize = 0;
    while a < n
        invariant
            a <= n,
            n == params@.len(),
            upper@.len() == n,
            forall|p: int| 0 <= p < n ==> (#[trigger] upper@[p])@.len() == n - p,
            hessian@.len() == a,
            forall|p: int| 0 <= p < a ==> (#[trigger] hessian@[p])@.len() == n,
            forall|p: int, q: int|
                0 <= p < a && 0 <= q < n ==> (#[trigger] hessian@[p]@[q]) == if p <= q {
                    upper@[p]@[q - p]
                } else {
                    upper@[q]@[p - q]
                },
        decreases n - a,
    {
        let mut row: Vec<Real> = Vec::new();
        let mut b: usize = 0;
        while b < n
            invariant
                b <= n,
                a < n,
                upper@.len() == n,
                forall|p: int| 0 <= p < n ==> (#[trigger] upper@[p])@.len() == n - p,
                row@.len() == b,
                forall|q: int|
                    0 <= q < b ==> (#[trigger] row@[q]) == if a <= q {
                        upper@[a as int]@[q - a]
                    } else {
                        upper@[q]@[a - q]
                    },
            decreases n - b,
        {
            if a <= b {
                assert(upper@[a as int]@.len() == n - a);
                row.push(upper[a][b - a]);
            } else {
                assert(upper@[b as int]@.len() == n - b);
                row.push(upper[b][a - b]);
            }
            b += 1;
        }
        hessian.push(row);
        a += 1;
    }
    proof {
        let h = grid(hessian@);
        assert forall|p: int, q: int| 0 <= p <= q < n implies #[trigger] is_hessian_entry(
            ar,
            f,
            params@,
            epsilon,
            center,
            p,
            q,
            Ok::<Real, EngineError>(h[p][q]),
        ) by {
            assert(hessian@[p]@[q] == upper@[p]@[q - p]);
            assert(is_hessian_entry(
                ar,
                f,
                params@,
                epsilon,
                center,
                p,
                q,
                Ok::<Real, EngineError>(upper@[p]@[q - p]),
            ));
        }
        assert forall|p: int, q: int| 0 <= p <= q < n implies #[trigger] h[q][p] == h[p][q] by {
            assert(hessian@[q]@[p] == if q <= p {
                upper@[q]@[p - q]
            } else {
                upper@[p]@[q - p]
            });
            assert(hessian@[p]@[q] == upper@[p]@[q - p]);
        }
        assert forall|p: int| 0 <= p < h.len() implies (#[trigger] h[p]).len() == n by {
            assert(hessian@[p]@.len() == n);
        }
        assert(is_value(f, params@, Ok::<Real, EngineError>(center)));
        assert(is_hessian(ar, f, params@, epsilon, h));
    }
    Ok(hessian)
}

/// The bits of `1e-6`: the width of the finite differences of a fit, and
/// the tolerance at which it has settled.
pub const MILLIONTH_BITS: u64 = 0x3eb0_c6f7_a0b5_ed8d;

/// The largest modulus among the first `n` of `g`, and 0 for none.
pub open spec fn steepest(g: Seq<Real>, n: nat) -> Real
    decreases n,
{
    if n == 0 {
        Real { bits: 0 }
    } else {
        steepest(g, (n - 1) as nat).larger(g[n - 1].absolute())
    }
}

/// `r` is `a + rate * g`.
pub open spec fn is_ascent_step<A: Arithmetic>(
    ar: &A,
    a: Real,
    rate: Real,
    g: Real,
    r: Real,
) -> bool {
    exists|d: Real| is_real_product(ar, rate, g, d) && #[trigger] is_real_sum(ar, a, d, r)
}

/// `next` is `params` moved along the gradient `g`, scaled by `rate`.
pub open spec fn is_ascent<A: Arithmetic>(
    ar: &A,
    params: Seq<Real>,
    rate: Real,
    g: Seq<Real>,
    next: Seq<Real>,
) -> bool {
    &&& next.len() == params.len()
    &&& forall|i: int|
        0 <= i < next.len() ==> #[trigger] is_ascent_step(ar, params[i], rate, g[i], next[i])
}

/// Moves the parameters along the gradient and finds its largest modulus.
fn ascend<A: Arithmetic>(ar: &A, params: &Vec<Real>, rate: Real, g: &Vec<Real>) -> (r: (
    Vec<Real>,
    Real,
))
    requires
        g@.len() == params@.len(),
    ensures
        is_ascent(ar, params@, rate, g@, r.0@),
        r.1 == steepest(g@, g@.len()),
{
    let mut next: Vec<Real> = Vec::new();
    let mut most = Real::zero();
    let mut i: usize = 0;
    while i < params.len()
        invariant
            i <= params@.len(),
            g@.len() == params@.len(),
            next@.len() == i,
            forall|k: int|
                0 <= k < i ==> #[trigger] is_ascent_step(ar, params@[k], rate, g@[k], next@[k]),
            most == steepest(g@, i as nat),
        decreases params@.len() - i,
    {
        let d = ar.mul_real(rate, g[i]);
        let moved = ar.add_real(params[i], d);
        assert(is_real_product(ar, rate, g@[i as int], d) && is_real_sum(
            ar,
            params@[i as int],
            d,
            moved,
        ));
        assert(is_ascent_step(ar, params@[i as int], rate, g@[i as int], moved));
        next.push(moved);
        most = most.max(g[i].abs());
        i += 1;
    }
    (next, most)
}

/// One round of the ascent from `params`, where the likelihood is `ll`:
/// the parameters move along the gradient to `next`, where the likelihood is
/// `value`. The ascent has `settled` where both the change of the
/// likelihood and the steepest slope are below the tolerance.
pub open spec fn is_round<A: Arithmetic, F: Fn(&Vec<Real>) -> Result<Real, EngineError>>(
    ar: &A,
    f: &F,
    rate: Real,
    tol: Real,
    params: Seq<Real>,
    ll: Real,
    next: Seq<Real>,
    value: Real,
    settled: bool,
) -> bool {
    exists|g: Seq<Real>, d: Real|
        #![trigger
            are_partials(ar, f, params, Real { bits: MILLIONTH_BITS }, g),
            is_real_difference(ar, value, ll, d)]
        g.len() == params.len() && are_partials(ar, f, params, Real { bits: MILLIONTH_BITS }, g)
            && is_ascent(ar, params, rate, g, next) && is_value(
            f,
            next,
            Ok::<Real, EngineError>(value),
        ) && is_real_difference(ar, value, ll, d) && settled == (d.absolute().lt(tol) && steepest(
            g,
            g.len(),
        ).lt(tol))
}

/// After `k` rounds from `start`, none of which settled, the parameters are
/// `params` and the likelihood is `ll`.
pub open spec fn is_ascent_state<A: Arithmetic, F: Fn(&Vec<Real>) -> Result<Real, EngineError>>(
    ar: &A,
    f: &F,
    rate: Real,
    tol: Real,
    start: Seq<Real>,
    k: nat,
    params: Seq<Real>,
    ll: Real,
) -> bool
    decreases k,
{
    if k == 0 {
        params == start && is_value(f, start, Ok::<Real, EngineError>(ll))
    } else {
        exists|before: Seq<Real>, was: Real|
            is_ascent_state(ar, f, rate, tol, start, (k - 1) as nat, before, was)
                && #[trigger] is_round(ar, f, rate, tol, before, was, params, ll, false)
    }
}

/// `u` is the uncertainty that a row of the matrix of second derivatives
/// gives: one over the root of the sum of the row where that sum is above
/// zero, else zero.
pub open spec fn is_uncertainty<A: Arithmetic>(ar: &A, row: Seq<Real>, u: Real) -> bool {
    exists|s: Real| #[trigger]
        is_real_total(ar, row, s) && if (Real { bits: 0 }).lt(s) {
            exists|root: Real|
                is_real_root(ar, s, root) && #[trigger] is_real_quotient(
                    ar,
                    Real { bits: ONE_BITS },
                    root,
                    u,
                )
        } else {
            u == (Real { bits: 0 })
        }
}

/// `us` holds the uncertainty of each row of `h`.
pub open spec fn are_uncertainties<A: Arithmetic>(
    ar: &A,
    h: Seq<Seq<Real>>,
    us: Seq<Real>,
) -> bool {
    &&& us.len() == h.len()
    &&& forall|i: int| 0 <= i < us.len() ==> #[trigger] is_uncertainty(ar, h[i], us[i])
}

fn uncertainties_of<A: Arithmetic>(ar: &A, h: &Vec<Vec<Real>>) -> (us: Vec<Real>)
    ensures
        are_uncertainties(ar, grid(h@), us@),
{
    let mut us: Vec<Real> = Vec::new();
    let mut i: usize = 0;
    while i < h.len()
        invariant
            i <= h@.len(),
            us@.len() == i,
            forall|k: int| 0 <= k < i ==> #[trigger] is_uncertainty(ar, grid(h@)[k], us@[k]),
        decreases h@.len() - i,
    {
        let s = real_total(ar, &h[i]);
        let u = if Real::zero().less_than(s) {
            let root = ar.sqrt_real(s);
            let u = ar.div_real(Real::one(), root);
            assert(is_real_root(ar, s, root) && is_real_quotient(
                ar,
                Real { bits: ONE_BITS },
                root,
                u,
            ));
            u
        } else {
            Real::zero()
        };
        assert(is_real_total(ar, grid(h@)[i as int], s));
        assert(is_uncertainty(ar, grid(h@)[i as int], u));
        us.push(u);
        i += 1;
    }
    us
}

/// A list of `n` times `x`.
fn repeated(x: Real, n: usize) -> (r: Vec<Real>)
    ensures
        r@ == Seq::new(n as nat, |i: int| x),
{
    let mut out: Vec<Real> = Vec::new();
    let mut i: usize = 0;
    while i < n
        invariant
            i <= n,
            out@.len() == i,
            forall|k: int| 0 <= k < i ==> out@[k] == x,
        decreases n - i,
    {
        out.push(x);
        i += 1;
    }
    assert(out@ =~= Seq::new(n as nat, |i: int| x));
    out
}

/// A round of the ascent from `params` fails with `e`: the gradient gives
/// this error; or `f` gives it for the parameters moved along the gradient;
/// or the round settles, and the matrix of second derivatives at the moved
/// parameters gives it.
pub open spec fn is_failed_round<A: Arithmetic, F: Fn(&Vec<Real>) -> Result<Real, EngineError>>(
    ar: &A,
    f: &F,
    rate: Real,
    tol: Real,
    params: Seq<Real>,
    ll: Real,
    e: EngineError,
) -> bool {
    ||| gradient_fails(ar, f, params, Real { bits: MILLIONTH_BITS }, e)
    ||| exists|g: Seq<Real>, next: Seq<Real>|
        #![trigger
            are_partials(ar, f, params, Real { bits: MILLIONTH_BITS }, g),
            is_ascent(ar, params, rate, g, next)]
        g.len() == params.len() && are_partials(ar, f, params, Real { bits: MILLIONTH_BITS }, g)
            && is_ascent(ar, params, rate, g, next) && is_value(
            f,
            next,
            Err::<Real, EngineError>(e),
        )
    ||| exists|next: Seq<Real>, value: Real| #[trigger]
        is_round(ar, f, rate, tol, params, ll, next, value, true) && hessian_error(
            ar,
            f,
            next,
            Real { bits: MILLIONTH_BITS },
            e,
        )
}

/// The ascent fails with `e` in the round after `k` unsettled rounds, which
/// led to `params` with likelihood `ll`.
pub open spec fn ascent_fails<A: Arithmetic, F: Fn(&Vec<Real>) -> Result<Real, EngineError>>(
    ar: &A,
    f: &F,
    rate: Real,
    tol: Real,
    start: Seq<Real>,
    k: nat,
    params: Seq<Real>,
    ll: Real,
    e: EngineError,
) -> bool {
    is_ascent_state(ar, f, rate, tol, start, k, params, ll) && is_failed_round(
        ar,
        f,
        rate,
        tol,
        params,
        ll,
        e,
    )
}

/// The ascent settled in round `fit.iterations`, at `fit.best_params` with
/// likelihood `fit.log_likelihood`, after rounds that did not.
pub open spec fn has_settled<A: Arithmetic, F: Fn(&Vec<Real>) -> Result<Real, EngineError>>(
    ar: &A,
    f: &F,
    rate: Real,
    tol: Real,
    start: Seq<Real>,
    fit: FitResult,
) -> bool {
    exists|before: Seq<Real>, was: Real|
        is_ascent_state(ar, f, rate, tol, start, (fit.iterations - 1) as nat, before, was)
            && #[trigger] is_round(
            ar,
            f,
            rate,
            tol,
            before,
            was,
            fit.best_params@,
            fit.log_likelihood,
            true,
        )
}

/// `fit` is what an ascent of at most `max_iterations` rounds from `start`
/// gives where nothing fails. Where a round settled, it is the last: the
/// fit holds its parameters and likelihood, the matrix of second
/// derivatives there, and the uncertainties from its rows. Where none did,
/// the fit holds the parameters and likelihood after all rounds, with
/// infinite uncertainties and a matrix of zeros.
pub open spec fn is_fit<A: Arithmetic, F: Fn(&Vec<Real>) -> Result<Real, EngineError>>(
    ar: &A,
    f: &F,
    rate: Real,
    tol: Real,
    start: Seq<Real>,
    max_iterations: usize,
    fit: FitResult,
) -> bool {
    if fit.converged {
        &&& 1 <= fit.iterations <= max_iterations
        &&& has_settled(ar, f, rate, tol, start, fit)
        &&& is_hessian(
            ar,
            f,
            fit.best_params@,
            Real { bits: MILLIONTH_BITS },
            grid(fit.fisher_info@),
        )
        &&& are_uncertainties(ar, grid(fit.fisher_info@), fit.uncertainties@)
    } else {
        &&& fit.iterations == max_iterations
        &&& is_ascent_state(
            ar,
            f,
            rate,
            tol,
            start,
            max_iterations as nat,
            fit.best_params@,
            fit.log_likelihood,
        )
        &&& fit.uncertainties@ == Seq::new(
            start.len(),
            |i: int| Real { bits: INFINITY_BITS },
        )
        &&& grid(fit.fisher_info@) == Seq::new(
            start.len(),
            |i: int| Seq::new(start.len(), |j: int| Real { bits: 0 }),
        )
    }
}

/// What [`gradient_descent`] gives: the fit, or the error that `f` gave at
/// the start or that a round failed with.
pub open spec fn is_fit_outcome<A: Arithmetic, F: Fn(&Vec<Real>) -> Result<Real, EngineError>>(
    ar: &A,
    f: &F,
    rate: Real,
    tol: Real,
    start: Seq<Real>,
    max_iterations: usize,
    r: Result<FitResult, EngineError>,
) -> bool {
    match r {
        Ok(fit) => is_fit(ar, f, rate, tol, start, max_iterations, fit),
        Err(e) => is_value(f, start, Err::<Real, EngineError>(e)) || exists|
            k: nat,
            params: Seq<Real>,
            ll: Real,
        |
            k < max_iterations && #[trigger] ascent_fails(
                ar,
                f,
                rate,
                tol,
                start,
                k,
                params,
                ll,
                e,
            ),
    }
}

/// Fits the parameters of `f` by ascent along its gradient at a fixed
/// rate, from `initial_params`, for at most `max_iterations` rounds. The
/// ascent has settled when the likelihood changes by less than `tolerance`
/// in a round whose steepest slope is below `tolerance` too.
pub fn gradient_descent<A: Arithmetic, F: Fn(&Vec<Real>) -> Result<Real, EngineError>>(
    ar: &A,
    f: &F,
    initial_params: &Vec<Real>,
    max_iterations: usize,
    learning_rate: Real,
    tolerance: Real,
) -> (r: Result<FitResult, EngineError>)
    requires
        is_total_function(f),
    ensures
        is_fit_outcome(ar, f, learning_rate, tolerance, initial_params@, max_iterations, r),
{
    let n: usize = initial_params.len();
    let eps = Real::from_bits(MILLIONTH_BITS);
    assert(f.requires((initial_params,)));
    let first = f(initial_params);
    assert(is_value(f, initial_params@, first));
    let mut log_likelihood = match first {
        Ok(v) => v,
        Err(e) => {
            return Err(e);
        },
    };
    let mut params: Vec<Real> = Vec::new();
    let mut k: usize = 0;
    while k < n
        invariant
            k <= n,
            n == initial_params@.len(),
            params@ == initial_params@.take(k as int),
        decreases n - k,
    {
        params.push(initial_params[k]);
        assert(params@ =~= initial_params@.take(k as int + 1));
        k += 1;
    }
    assert(params@ =~= initial_params@);
    let mut iter: usize = 0;
    while iter < max_iterations
        invariant
            iter <= max_iterations,
            is_total_function(f),
            eps == (Real { bits: MILLIONTH_BITS }),
            n == initial_params@.len(),
            params@.len() == n,
            is_ascent_state(
                ar,
                f,
                learning_rate,
                tolerance,
                initial_params@,
                iter as nat,
                params@,
                log_likelihood,
            ),
        decreases max_iterations - iter,
    {
        let gradient = match compute_gradient(ar, f, &params, eps) {
            Ok(g) => g,
            Err(e) => {
                assert(is_failed_round(
                    ar,
                    f,
                    learning_rate,
                    tolerance,
                    params@,
                    log_likelihood,
                    e,
                ));
                assert(ascent_fails(
                    ar,
                    f,
                    learning_rate,
                    tolerance,
                    initial_params@,
                    iter as nat,
                    params@,
                    log_likelihood,
                    e,
                ));
                return Err(e);
            },
        };
        let (next, max_grad) = ascend(ar, &params, learning_rate, &gradient);
        assert(f.requires((&next,)));
        let answer = f(&next);
        assert(is_value(f, next@, answer));
        let value = match answer {
            Ok(v) => v,
            Err(e) => {
                assert(are_partials(ar, f, params@, eps, gradient@) && is_ascent(
                    ar,
                    params@,
                    learning_rate,
                    gradient@,
                    next@,
                ));
                assert(is_failed_round(
                    ar,
                    f,
                    learning_rate,
                    tolerance,
                    params@,
                    log_likelihood,
                    e,
                ));
                assert(ascent_fails(
                    ar,
                    f,
                    learning_rate,
                    tolerance,
                    initial_params@,
                    iter as nat,
                    params@,
                    log_likelihood,
                    e,
                ));
                return Err(e);
            },
        };
        let d = ar.sub_real(value, log_likelihood);
        let settled = d.abs().less_than(tolerance) && max_grad.less_than(tolerance);
        assert(are_partials(ar, f, params@, eps, gradient@) && is_real_difference(
            ar,
            value,
            log_likelihood,
            d,
        ));
        assert(is_round(
            ar,
            f,
            learning_rate,
            tolerance,
            params@,
            log_likelihood,
            next@,
            value,
            settled,
        ));
        if settled {
            let hessian = match compute_hessian(ar, f, &next, eps) {
                Ok(h) => h,
                Err(e) => {
                    assert(is_failed_round(
                        ar,
                        f,
                        learning_rate,
                        tolerance,
                        params@,
                        log_likelihood,
                        e,
                    ));
                    assert(ascent_fails(
                        ar,
                        f,
                        learning_rate,
                        tolerance,
                        initial_params@,
                        iter as nat,
                        params@,
                        log_likelihood,
                        e,
                    ));
                    return Err(e);
                },
            };
            let uncertainties = uncertainties_of(ar, &hessian);
            let fit = FitResult {
                best_params: next,
                uncertainties,
                log_likelihood: value,
                fisher_info: hessian,
                converged: true,
                iterations: iter + 1,
            };
            assert(is_ascent_state(
                ar,
                f,
                learning_rate,
                tolerance,
                initial_params@,
                (fit.iterations - 1) as nat,
                params@,
                log_likelihood,
            ) && is_round(
                ar,
                f,
                learning_rate,
                tolerance,
                params@,
                log_likelihood,
                fit.best_params@,
                fit.log_likelihood,
                true,
            ));
            assert(has_settled(ar, f, learning_rate, tolerance, initial_params@, fit));
            return Ok(fit);
        }
        proof {
            let c: nat = (iter + 1) as nat;
            assert(is_ascent_state(
                ar,
                f,
                learning_rate,
                tolerance,
                initial_params@,
                (c - 1) as nat,
                params@,
                log_likelihood,
            ) && is_round(
                ar,
                f,
                learning_rate,
                tolerance,
                params@,
                log_likelihood,
                next@,
                value,
                false,
            ));
            assert(is_ascent_state(
                ar,
                f,
                learning_rate,
                tolerance,
                initial_params@,
                c,
                next@,
                value,
            ));
        }
        params = next;
        log_likelihood = value;
        iter += 1;
    }
    let uncertainties = repeated(Real::from_bits(INFINITY_BITS), n);
    let mut fisher_info: Vec<Vec<Real>> = Vec::new();
    let mut a: usize = 0;
    while a < n
        invariant
            a <= n,
            fisher_info@.len() == a,
            forall|p: int|
                0 <= p < a ==> (#[trigger] fisher_info@[p])@ == Seq::new(
                    n as nat,
                    |j: int| Real { bits: 0 },
                ),
        decreases n - a,
    {
        fisher_info.push(repeated(Real::zero(), n));
        a += 1;
    }
    assert(grid(fisher_info@) =~= Seq::new(
        n as nat,
        |i: int| Seq::new(n as nat, |j: int| Real { bits: 0 }),
    ));
    Ok(
        FitResult {
            best_params: params,
            uncertainties,
            log_likelihood,
            fisher_info,
            converged: false,
            iterations: max_iterations,
        },
    )
}

/// Fits the parameters of a likelihood by [`gradient_descent`] at the rate
/// 0.01, with the tolerance `1e-6`.
pub fn fit_parameters_mle<A: Arithmetic, F: Fn(&Vec<Real>) -> Result<Real, EngineError>>(
    ar: &A,
    likelihood_fn: &F,
    initial_guess: &Vec<Real>,
    max_iterations: usize,
) -> (r: Result<FitResult, EngineError>)
    requires
        is_total_function(likelihood_fn),
    ensures
        is_fit_outcome(
            ar,
            likelihood_fn,
            Real { bits: HUNDREDTH_BITS },
            Real { bits: MILLIONTH_BITS },
            initial_guess@,
            max_iterations,
            r,
        ),
{
    gradient_descent(
        ar,
        likelihood_fn,
        initial_guess,
        max_iterations,
        Real::from_bits(HUNDREDTH_BITS),
        Real::from_bits(MILLIONTH_BITS),
    )
}

/// The bits of `1e-10`: a second derivative of this size or less counts as
/// flat.
pub const FLAT_BITS: u64 = 0x3ddb_7cdf_d9d7_bdbb;

/// The bits of 0.68.
pub const LEVEL_68_BITS: u64 = 0x3fe5_c28f_5c28_f5c3;

/// The bits of 0.95.
pub const LEVEL_95_BITS: u64 = 0x3fee_6666_6666_6666;

/// The bits of 0.99.
pub const LEVEL_99_BITS: u64 = 0x3fef_ae14_7ae1_47ae;

/// The bits of 1.96.
pub const SCORE_95_BITS: u64 = 0x3fff_5c28_f5c2_8f5c;

/// The bits of 2.576.
pub const SCORE_99_BITS: u64 = 0x4004_9ba5_e353_f7cf;

/// The number of standard errors that span a level of confidence: 1 for
/// 0.68, 1.96 for 0.95 and 2.576 for 0.99. Other levels have none.
pub open spec fn z_score(level: Real) -> Option<Real> {
    if level.same_value(Real { bits: LEVEL_68_BITS }) {
        Some(Real { bits: ONE_BITS })
    } else if level.same_value(Real { bits: LEVEL_95_BITS }) {
        Some(Real { bits: SCORE_95_BITS })
    } else if level.same_value(Real { bits: LEVEL_99_BITS }) {
        Some(Real { bits: SCORE_99_BITS })
    } else {
        None
    }
}

/// `margin` is `z` standard errors for a parameter whose second derivative
/// is `d`: the variance is `1 / |d|` where `|d|` is above `1e-10`, and
/// infinite where it is not; the standard error is its root.
pub open spec fn is_margin<A: Arithmetic>(ar: &A, z: Real, d: Real, margin: Real) -> bool {
    exists|variance: Real, root: Real| #[trigger]
        is_real_root(ar, variance, root) && (if (Real { bits: FLAT_BITS }).lt(
            d.absolute(),
        ) {
            is_real_quotient(ar, Real { bits: ONE_BITS }, d.absolute(), variance)
        } else {
            variance == (Real { bits: INFINITY_BITS })
        }) && is_real_product(ar, z, root, margin)
}

/// `pair` is the interval of `z` standard errors to either side of a
/// parameter whose second derivative is `d`, relative to the parameter.
pub open spec fn is_interval<A: Arithmetic>(ar: &A, z: Real, d: Real, pair: (Real, Real)) -> bool {
    is_margin(ar, z, d, pair.1) && pair.0 == pair.1.negated()
}

/// Whether row `i` of a matrix reaches the diagonal, for every `i`.
pub open spec fn has_diagonal(h: Seq<Vec<Real>>) -> bool {
    forall|i: int| 0 <= i < h.len() ==> i < (#[trigger] h[i])@.len()
}

/// What [`compute_confidence_intervals`] gives: an error for a level of
/// confidence without a score, else the interval of each parameter.
pub open spec fn is_intervals_outcome<A: Arithmetic>(
    ar: &A,
    h: Seq<Vec<Real>>,
    level: Real,
    r: Result<Vec<(Real, Real)>, EngineError>,
) -> bool {
    match z_score(level) {
        None => r == Err::<Vec<(Real, Real)>, EngineError>(
            EngineError::ValidationError(ValidationFault::ConfidenceLevel { level }),
        ),
        Some(z) => r is Ok && r->Ok_0@.len() == h.len() && forall|i: int|
            0 <= i < h.len() ==> #[trigger] is_interval(ar, z, h[i]@[i], r->Ok_0@[i]),
    }
}

/// The intervals of confidence of fitted parameters, relative to the
/// parameters, from the diagonal of the matrix of second derivatives of the
/// likelihood. The levels 0.68, 0.95 and 0.99 are known.
pub fn compute_confidence_intervals<A: Arithmetic>(
    ar: &A,
    fisher_info: &Vec<Vec<Real>>,
    confidence_level: Real,
) -> (r: Result<Vec<(Real, Real)>, EngineError>)
    requires
        has_diagonal(fisher_info@),
    ensures
        is_intervals_outcome(ar, fisher_info@, confidence_level, r),
{
    let z = if confidence_level.equals(Real::from_bits(LEVEL_68_BITS)) {
        Real::one()
    } else if confidence_level.equals(Real::from_bits(LEVEL_95_BITS)) {
        Real::from_bits(SCORE_95_BITS)
    } else if confidence_level.equals(Real::from_bits(LEVEL_99_BITS)) {
        Real::from_bits(SCORE_99_BITS)
    } else {
        return Err(
            EngineError::validation_error(
                ValidationFault::ConfidenceLevel { level: confidence_level },
            ),
        );
    };
    let mut intervals: Vec<(Real, Real)> = Vec::new();
    let mut i: usize = 0;
    while i < fisher_info.len()
        invariant
            i <= fisher_info@.len(),
            has_diagonal(fisher_info@),
            intervals@.len() == i,
            forall|k: int|
                0 <= k < i ==> #[trigger] is_interval(ar, z, fisher_info@[k]@[k], intervals@[k]),
        decreases fisher_info@.len() - i,
    {
        assert(i < fisher_info@[i as int]@.len());
        let size = fisher_info[i][i].abs();
        let variance = if size.greater_than(Real::from_bits(FLAT_BITS)) {
            ar.div_real(Real::one(), size)
        } else {
            Real::from_bits(INFINITY_BITS)
        };
        let root = ar.sqrt_real(variance);
        let margin = ar.mul_real(z, root);
        assert(is_real_root(ar, variance, root));
        assert(is_margin(ar, z, fisher_info@[i as int]@[i as int], margin));
        intervals.push((margin.neg(), margin));
        i += 1;
    }
    Ok(intervals)
}

/// How many of the first `n` of `xs` are below `x`.
pub open spec fn count_below(xs: Seq<Real>, x: Real, n: nat) -> nat
    decreases n,
{
    if n == 0 {
        0
    } else if xs[n - 1].lt(x) {
        count_below(xs, x, (n - 1) as nat) + 1
    } else {
        count_below(xs, x, (n - 1) as nat)
    }
}

/// How many of the first `n` of `xs` equal `x` as numbers.
pub open spec fn count_same(xs: Seq<Real>, x: Real, n: nat) -> nat
    decreases n,
{
    if n == 0 {
        0
    } else if xs[n - 1].same_value(x) {
        count_same(xs, x, (n - 1) as nat) + 1
    } else {
        count_same(xs, x, (n - 1) as nat)
    }
}

/// The place that a stable ascending sort gives to element `i` of a list
/// of numbers: after all that are below it, and after those before it that
/// equal it.
pub open spec fn stable_rank(xs: Seq<Real>, i: int) -> nat {
    count_below(xs, xs[i], xs.len()) + count_same(xs, xs[i], i as nat)
}

/// The first element at or after `from` whose place in the sorted list is
/// `place`.
pub open spec fn ranked_from(xs: Seq<Real>, place: nat, from: int) -> Option<Real>
    decreases xs.len() - from,
{
    if from < 0 || from >= xs.len() {
        None
    } else if stable_rank(xs, from) == place {
        Some(xs[from])
    } else {
        ranked_from(xs, place, from + 1)
    }
}

/// The element that a stable ascending sort of `xs` puts at `place`.
pub fn ranked(xs: &Vec<Real>, place: usize) -> (r: Option<Real>)
    ensures
        r == ranked_from(xs@, place as nat, 0),
{
    let n: usize = xs.len();
    let mut i: usize = 0;
    while i < n
        invariant
            i <= n,
            n == xs@.len(),
            ranked_from(xs@, place as nat, 0) == ranked_from(xs@, place as nat, i as int),
        decreases n - i,
    {
        let x = xs[i];
        let mut below: usize = 0;
        let mut k: usize = 0;
        while k < n
            invariant
                k <= n,
                n == xs@.len(),
                below <= k,
                below == count_below(xs@, x, k as nat),
            decreases n - k,
        {
            if xs[k].less_than(x) {
                below += 1;
            }
            k += 1;
        }
        let mut same: usize = 0;
        let mut m: usize = 0;
        while m < i
            invariant
                m <= i,
                i < n,
                n == xs@.len(),
                same <= m,
                same == count_same(xs@, x, m as nat),
            decreases i - m,
        {
            if xs[m].equals(x) {
                same += 1;
            }
            m += 1;
        }
        if below as u128 + same as u128 == place as u128 {
            return Some(x);
        }
        i += 1;
    }
    None
}

/// `rand::seq::SliceRandom::choose` with the generator of the thread: an
/// element of the list picked at random, and `None` for an empty list.
#[verifier::external_body]
fn choose_one(items: &Vec<usize>) -> (r: Option<usize>)
    ensures
        match r {
            Some(x) => items@.contains(x),
            None => items@.len() == 0,
        },
{
    items.choose(&mut rand::thread_rng()).copied()
}

/// Whether `sample` draws as many items from `items` as `items` holds.
pub open spec fn is_resample(items: Seq<usize>, sample: Seq<usize>) -> bool {
    &&& sample.len() == items.len()
    &&& forall|k: int| 0 <= k < sample.len() ==> items.contains(#[trigger] sample[k])
}

/// Draws from `items`, with replacement, as many items as it holds.
fn resample(items: &Vec<usize>) -> (sample: Vec<usize>)
    ensures
        is_resample(items@, sample@),
{
    let mut sample: Vec<usize> = Vec::new();
    let mut k: usize = 0;
    while k < items.len()
        invariant
            k <= items@.len(),
            sample@.len() == k,
            forall|p: int| 0 <= p < k ==> items@.contains(#[trigger] sample@[p]),
        decreases items@.len() - k,
    {
        match choose_one(items) {
            Some(x) => {
                sample.push(x);
            },
            None => {
                vstd::pervasive::unreached::<()>();
            },
        }
        k += 1;
    }
    sample
}

/// `lower` and `upper` are the places in a sorted list of `n` estimates
/// that bound the middle `level` of them: the whole parts of
/// `n * ((1 - level) / 2)` and of `n * (1 - (1 - level) / 2)`.
pub open spec fn is_percentile_places<A: Arithmetic>(
    ar: &A,
    n: usize,
    level: Real,
    lower: usize,
    upper: usize,
) -> bool {
    exists|alpha: Real, half: Real, rest: Real, nb: Real, a: Real, b: Real|
        #![trigger
            is_real_quotient(ar, alpha, Real { bits: TWO_BITS }, half),
            is_real_difference(ar, Real { bits: ONE_BITS }, half, rest),
            is_real_product(ar, nb, half, a),
            is_real_product(ar, nb, rest, b)]
        is_real_difference(ar, Real { bits: ONE_BITS }, level, alpha) && is_real_quotient(
            ar,
            alpha,
            Real { bits: TWO_BITS },
            half,
        ) && is_real_difference(ar, Real { bits: ONE_BITS }, half, rest) && is_count(ar, n, nb)
            && is_real_product(ar, nb, half, a) && is_whole_part(ar, a, lower)
            && is_real_product(ar, nb, rest, b) && is_whole_part(ar, b, upper)
}

/// `out` is what the fit gave for a list of data that reads `data`.
pub open spec fn is_estimate<F: Fn(&Vec<usize>) -> Result<Vec<Real>, EngineError>>(
    fit_fn: &F,
    data: Seq<usize>,
    out: Result<Vec<Real>, EngineError>,
) -> bool {
    exists|w: Vec<usize>| w@ == data && #[trigger] fit_fn.ensures((&w,), out)
}

/// `out` is what the fit gave for data drawn anew from `items`.
pub open spec fn is_redrawn_estimate<F: Fn(&Vec<usize>) -> Result<Vec<Real>, EngineError>>(
    fit_fn: &F,
    items: Seq<usize>,
    out: Result<Vec<Real>, EngineError>,
) -> bool {
    exists|sample: Seq<usize>| #[trigger]
        is_resample(items, sample) && is_estimate(fit_fn, sample, out)
}

/// Estimate `i` of every round.
pub open spec fn column(rounds: Seq<Vec<Real>>, i: int) -> Seq<Real> {
    Seq::new(rounds.len(), |r: int| rounds[r]@[i])
}

/// `rounds` holds the estimates of `count` rounds of the bootstrap, each
/// from data drawn anew, and each of `width` parameters.
pub open spec fn are_rounds<F: Fn(&Vec<usize>) -> Result<Vec<Real>, EngineError>>(
    fit_fn: &F,
    items: Seq<usize>,
    width: nat,
    rounds: Seq<Vec<Real>>,
) -> bool {
    forall|r: int|
        0 <= r < rounds.len() ==> (#[trigger] rounds[r])@.len() == width && is_redrawn_estimate(
            fit_fn,
            items,
            Ok::<Vec<Real>, EngineError>(rounds[r]),
        )
}

/// `intervals` holds for each parameter the estimates at the places
/// `lower` and `upper` of its sorted estimates.
pub open spec fn are_percentiles(
    rounds: Seq<Vec<Real>>,
    lower: usize,
    upper: usize,
    intervals: Seq<(Real, Real)>,
) -> bool {
    forall|i: int|
        0 <= i < intervals.len() ==> ranked_from(column(rounds, i), lower as nat, 0) == Some(
            (#[trigger] intervals[i]).0,
        ) && ranked_from(column(rounds, i), upper as nat, 0) == Some(intervals[i].1)
}

/// `intervals` are what the bootstrap gives where nothing fails: with the
/// estimates of `n_bootstrap` rounds, each of as many parameters as the fit
/// of the data itself gives, the interval of a parameter runs between the
/// estimates at the two places that bound the middle `level` of them.
pub open spec fn is_bootstrap<
    A: Arithmetic,
    F: Fn(&Vec<usize>) -> Result<Vec<Real>, EngineError>,
>(
    ar: &A,
    fit_fn: &F,
    items: Seq<usize>,
    n_bootstrap: usize,
    level: Real,
    intervals: Seq<(Real, Real)>,
) -> bool {
    exists|first: Vec<Real>, rounds: Seq<Vec<Real>>, lower: usize, upper: usize|
        #![trigger
            is_estimate(fit_fn, items, Ok::<Vec<Real>, EngineError>(first)),
            are_percentiles(rounds, lower, upper, intervals)]
        is_estimate(fit_fn, items, Ok::<Vec<Real>, EngineError>(first)) && intervals.len()
            == first@.len() && rounds.len() == n_bootstrap && are_rounds(
            fit_fn,
            items,
            first@.len(),
            rounds,
        ) && is_percentile_places(ar, n_bootstrap, level, lower, upper) && are_percentiles(
            rounds,
            lower,
            upper,
            intervals,
        )
}

/// The errors of the bootstrap: that of the fit, on the data or on data
/// drawn anew; a round with another number of parameters than the fit of
/// the data gave; a level of confidence whose places lie beyond the
/// estimates.
pub open spec fn is_bootstrap_error<F: Fn(&Vec<usize>) -> Result<Vec<Real>, EngineError>>(
    fit_fn: &F,
    items: Seq<usize>,
    level: Real,
    e: EngineError,
) -> bool {
    ||| is_estimate(fit_fn, items, Err::<Vec<Real>, EngineError>(e))
    ||| is_redrawn_estimate(fit_fn, items, Err::<Vec<Real>, EngineError>(e))
    ||| e == EngineError::ValidationError(ValidationFault::LengthMismatch)
    ||| e == EngineError::ValidationError(ValidationFault::ConfidenceLevel { level })
}

/// Intervals of confidence without a model of the errors: the fit is
/// repeated `n_bootstrap` times on data drawn with replacement from
/// `data_indices`, and for each parameter the interval runs between the
/// percentiles of its estimates that bound the middle `confidence_level`.
pub fn bootstrap_confidence_intervals<
    A: Arithmetic,
    F: Fn(&Vec<usize>) -> Result<Vec<Real>, EngineError>,
>(
    ar: &A,
    data_indices: &Vec<usize>,
    fit_fn: &F,
    n_bootstrap: usize,
    confidence_level: Real,
) -> (r: Result<Vec<(Real, Real)>, EngineError>)
    requires
        forall|w: Vec<usize>| #[trigger] fit_fn.requires((&w,)),
    ensures
        match r {
            Ok(intervals) => is_bootstrap(
                ar,
                fit_fn,
                data_indices@,
                n_bootstrap,
                confidence_level,
                intervals@,
            ),
            Err(e) => is_bootstrap_error(fit_fn, data_indices@, confidence_level, e),
        },
{
    assert(fit_fn.requires((data_indices,)));
    let whole = fit_fn(data_indices);
    assert(is_estimate(fit_fn, data_indices@, whole));
    let first = match whole {
        Ok(v) => v,
        Err(e) => {
            return Err(e);
        },
    };
    let width: usize = first.len();
    let mut rounds: Vec<Vec<Real>> = Vec::new();
    let mut round: usize = 0;
    while round < n_bootstrap
        invariant
            round <= n_bootstrap,
            forall|w: Vec<usize>| #[trigger] fit_fn.requires((&w,)),
            rounds@.len() == round,
            are_rounds(fit_fn, data_indices@, width as nat, rounds@),
        decreases n_bootstrap - round,
    {
        let sample = resample(data_indices);
        assert(fit_fn.requires((&sample,)));
        let answer = fit_fn(&sample);
        assert(is_estimate(fit_fn, sample@, answer));
        assert(is_redrawn_estimate(fit_fn, data_indices@, answer));
        match answer {
            Ok(params) => {
                if params.len() != width {
                    return Err(EngineError::validation_error(ValidationFault::LengthMismatch));
                }
                rounds.push(params);
            },
            Err(e) => {
                return Err(e);
            },
        }
        round += 1;
    }
    let alpha = ar.sub_real(Real::one(), confidence_level);
    let half = ar.div_real(alpha, Real::from_bits(TWO_BITS));
    let rest = ar.sub_real(Real::one(), half);
    let nb = ar.real_from_count(n_bootstrap);
    let a = ar.mul_real(nb, half);
    let lower = ar.count_from_real(a);
    let b = ar.mul_real(nb, rest);
    let upper = ar.count_from_real(b);
    assert(is_real_quotient(ar, alpha, Real { bits: TWO_BITS }, half) && is_real_difference(
        ar,
        Real { bits: ONE_BITS },
        half,
        rest,
    ) && is_real_product(ar, nb, half, a) && is_real_product(ar, nb, rest, b));
    assert(is_percentile_places(ar, n_bootstrap, confidence_level, lower, upper));
    let mut intervals: Vec<(Real, Real)> = Vec::new();
    let mut i: usize = 0;
    while i < width
        invariant
            i <= width,
            rounds@.len() == n_bootstrap,
            are_rounds(fit_fn, data_indices@, width as nat, rounds@),
            intervals@.len() == i,
            are_percentiles(rounds@, lower, upper, intervals@),
        decreases width - i,
    {
        let mut samples: Vec<Real> = Vec::new();
        let mut k: usize = 0;
        while k < rounds.len()
            invariant
                k <= rounds@.len(),
                i < width,
                are_rounds(fit_fn, data_indices@, width as nat, rounds@),
                samples@.len() == k,
                forall|p: int| 0 <= p < k ==> samples@[p] == rounds@[p]@[i as int],
            decreases rounds@.len() - k,
        {
            assert(rounds@[k as int]@.len() == width);
            samples.push(rounds[k][i]);
            k += 1;
        }
        assert(samples@ =~= column(rounds@, i as int));
        let low = match ranked(&samples, lower) {
            Some(x) => x,
            None => {
                return Err(
                    EngineError::validation_error(
                        ValidationFault::ConfidenceLevel { level: confidence_level },
                    ),
                );
            },
        };
        let high = match ranked(&samples, upper) {
            Some(x) => x,
            None => {
                return Err(
                    EngineError::validation_error(
                        ValidationFault::ConfidenceLevel { level: confidence_level },
                    ),
                );
            },
        };
        intervals.push((low, high));
        i += 1;
    }
    assert(is_estimate(fit_fn, data_indices@, Ok::<Vec<Real>, EngineError>(first))
        && are_percentiles(rounds@, lower, upper, intervals@));
    Ok(intervals)
}

} // verus!
