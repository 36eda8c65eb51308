//! The rounding arithmetic that the library does not perform itself.
//!
//! An implementation of [`Arithmetic`] supplies sums, products, quotients and
//! the other operations that round. The library promises nothing of their
//! results and assumes nothing: each contract says which calls of the supplier
//! the result comes from, in which order.

use crate::scalar::{Complex, Real};
use vstd::prelude::*;

verus! {

/// The operations on numbers that round, and the Hermitian eigensolver.
pub trait Arithmetic {
    fn add_real(&self, a: Real, b: Real) -> Real;

    fn sub_real(&self, a: Real, b: Real) -> Real;

    fn mul_real(&self, a: Real, b: Real) -> Real;

    fn div_real(&self, a: Real, b: Real) -> Real;

    /// The exponential function.
    fn exp_real(&self, a: Real) -> Real;

    /// The natural logarithm.
    fn ln_real(&self, a: Real) -> Real;

    /// The square root.
    fn sqrt_real(&self, a: Real) -> Real;

    /// A count as a real number.
    fn real_from_count(&self, n: usize) -> Real;

    /// A real number as a count: its whole part, cut off at the ends of the
    /// range of counts.
    fn count_from_real(&self, a: Real) -> usize;

    fn add_complex(&self, a: Complex, b: Complex) -> Complex;

    fn sub_complex(&self, a: Complex, b: Complex) -> Complex;

    fn mul_complex(&self, a: Complex, b: Complex) -> Complex;

    fn div_complex(&self, a: Complex, b: Complex) -> Complex;

    /// The modulus of a complex number.
    fn norm(&self, a: Complex) -> Real;

    /// The squared modulus of a complex number.
    fn norm_sqr(&self, a: Complex) -> Real;

    /// Eigenvalues and eigenvectors (as columns) of a Hermitian matrix given
    /// by its rows, or `None` where the decomposition fails.
    fn eigh(&self, rows: &Vec<Vec<Complex>>) -> Option<(Vec<Real>, Vec<Vec<Complex>>)>;
}

/// `r` is what the supplier gives for `a + b`.
pub open spec fn is_sum<A: Arithmetic>(ar: &A, a: Complex, b: Complex, r: Complex) -> bool {
    call_ensures(A::add_complex, (ar, a, b), r)
}

/// `r` is what the supplier gives for `a - b`.
pub open spec fn is_difference<A: Arithmetic>(ar: &A, a: Complex, b: Complex, r: Complex) -> bool {
    call_ensures(A::sub_complex, (ar, a, b), r)
}

/// `r` is what the supplier gives for `a * b`.
pub open spec fn is_product<A: Arithmetic>(ar: &A, a: Complex, b: Complex, r: Complex) -> bool {
    call_ensures(A::mul_complex, (ar, a, b), r)
}

/// `r` is what the supplier gives for `a / b`.
pub open spec fn is_quotient<A: Arithmetic>(ar: &A, a: Complex, b: Complex, r: Complex) -> bool {
    call_ensures(A::div_complex, (ar, a, b), r)
}

/// `r` is what the supplier gives for the modulus of `a`.
pub open spec fn is_norm<A: Arithmetic>(ar: &A, a: Complex, r: Real) -> bool {
    call_ensures(A::norm, (ar, a), r)
}

/// `r` is what the supplier gives for the squared modulus of `a`.
pub open spec fn is_norm_sqr<A: Arithmetic>(ar: &A, a: Complex, r: Real) -> bool {
    call_ensures(A::norm_sqr, (ar, a), r)
}

/// `r` is what the supplier gives for `a + b` on reals.
pub open spec fn is_real_sum<A: Arithmetic>(ar: &A, a: Real, b: Real, r: Real) -> bool {
    call_ensures(A::add_real, (ar, a, b), r)
}

/// `r` is what the supplier gives for `a - b` on reals.
pub open spec fn is_real_difference<A: Arithmetic>(ar: &A, a: Real, b: Real, r: Real) -> bool {
    call_ensures(A::sub_real, (ar, a, b), r)
}

/// `r` is what the supplier gives for `a * b` on reals.
pub open spec fn is_real_product<A: Arithmetic>(ar: &A, a: Real, b: Real, r: Real) -> bool {
    call_ensures(A::mul_real, (ar, a, b), r)
}

/// `r` is what the supplier gives for `a / b` on reals.
pub open spec fn is_real_quotient<A: Arithmetic>(ar: &A, a: Real, b: Real, r: Real) -> bool {
    call_ensures(A::div_real, (ar, a, b), r)
}

/// `r` is what the supplier gives for the exponential of `a`.
pub open spec fn is_real_exp<A: Arithmetic>(ar: &A, a: Real, r: Real) -> bool {
    call_ensures(A::exp_real, (ar, a), r)
}

/// `r` is what the supplier gives for the natural logarithm of `a`.
pub open spec fn is_real_log<A: Arithmetic>(ar: &A, a: Real, r: Real) -> bool {
    call_ensures(A::ln_real, (ar, a), r)
}

/// `r` is what the supplier gives for the square root of `a`.
pub open spec fn is_real_root<A: Arithmetic>(ar: &A, a: Real, r: Real) -> bool {
    call_ensures(A::sqrt_real, (ar, a), r)
}

/// `n` is what the supplier gives for the real `a` as a count.
pub open spec fn is_whole_part<A: Arithmetic>(ar: &A, a: Real, n: usize) -> bool {
    call_ensures(A::count_from_real, (ar, a), n)
}

/// `r` is what the supplier gives for the count `n` as a real.
pub open spec fn is_count<A: Arithmetic>(ar: &A, n: usize, r: Real) -> bool {
    call_ensures(A::real_from_count, (ar, n), r)
}

/// The complex number zero, `+0 + 0i`.
pub open spec fn complex_zero() -> Complex {
    Complex { re: Real { bits: 0 }, im: Real { bits: 0 } }
}

/// `r` is the sum of `xs`, added up from zero, first element first.
pub open spec fn is_total<A: Arithmetic>(ar: &A, xs: Seq<Complex>, r: Complex) -> bool
    decreases xs.len(),
{
    if xs.len() == 0 {
        r == complex_zero()
    } else {
        exists|acc: Complex|
            is_total(ar, xs.drop_last(), acc) && #[trigger] is_sum(ar, acc, xs.last(), r)
    }
}

/// `r` is the sum of the reals `xs`, added up from zero, first element first.
pub open spec fn is_real_total<A: Arithmetic>(ar: &A, xs: Seq<Real>, r: Real) -> bool
    decreases xs.len(),
{
    if xs.len() == 0 {
        r == (Real { bits: 0 })
    } else {
        exists|acc: Real|
            is_real_total(ar, xs.drop_last(), acc) && #[trigger] is_real_sum(
                ar,
                acc,
                xs.last(),
                r,
            )
    }
}

/// `r` is the sum of the products `xs[k] * ys[k]` over the first `n` places,
/// added up from zero, first place first.
pub open spec fn is_dot<A: Arithmetic>(
    ar: &A,
    xs: Seq<Complex>,
    ys: Seq<Complex>,
    n: nat,
    r: Complex,
) -> bool
    decreases n,
{
    if n == 0 {
        r == complex_zero()
    } else {
        exists|acc: Complex, p: Complex|
            is_dot(ar, xs, ys, (n - 1) as nat, acc) && is_product(
                ar,
                xs[n - 1],
                ys[n - 1],
                p,
            ) && #[trigger] is_sum(ar, acc, p, r)
    }
}

/// Adds up `xs` from zero, first element first.
pub fn total<A: Arithmetic>(ar: &A, xs: &Vec<Complex>) -> (r: Complex)
    ensures
        is_total(ar, xs@, r),
{
    let mut acc = Complex::zero();
    let mut i: usize = 0;
    while i < xs.len()
        invariant
            i <= xs@.len(),
            is_total(ar, xs@.take(i as int), acc),
        decreases xs@.len() - i,
    {
        let next = ar.add_complex(acc, xs[i]);
        proof {
            let t = xs@.take(i as int + 1);
            assert(t.drop_last() =~= xs@.take(i as int));
            assert(is_total(ar, t.drop_last(), acc) && is_sum(ar, acc, t.last(), next));
        }
        acc = next;
        i += 1;
    }
    assert(xs@.take(xs@.len() as int) =~= xs@);
    acc
}

/// Adds up the reals `xs` from zero, first element first.
pub fn real_total<A: Arithmetic>(ar: &A, xs: &Vec<Real>) -> (r: Real)
    ensures
        is_real_total(ar, xs@, r),
{
    let mut acc = Real::zero();
    let mut i: usize = 0;
    while i < xs.len()
        invariant
            i <= xs@.len(),
            is_real_total(ar, xs@.take(i as int), acc),
        decreases xs@.len() - i,
    {
        let next = ar.add_real(acc, xs[i]);
        proof {
            let t = xs@.take(i as int + 1);
            assert(t.drop_last() =~= xs@.take(i as int));
            assert(is_real_total(ar, t.drop_last(), acc) && is_real_sum(ar, acc, t.last(), next));
        }
        acc = next;
        i += 1;
    }
    assert(xs@.take(xs@.len() as int) =~= xs@);
    acc
}

} // verus!
