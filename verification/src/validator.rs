//! The quantum validator: Hamiltonians must be Hermitian, density matrices
//! Hermitian, positive semi-definite and of trace one, kets normalized,
//! projectors idempotent and complete, effects positive and complete; all
//! within the tolerance [`crate::VALIDATION_TOL_BITS`].

use crate::arith::{
    is_difference, is_norm, is_norm_sqr, is_product, is_quotient, is_real_difference,
    is_real_total, is_sum, is_total, real_total, Arithmetic,
};
use crate::ast::{
    Expr, ExperimentBody, MatrixLiteral, MeasurementSpec, Statement, StateSpec, VectorLiteral,
};
use crate::error::{EngineError, QuantumFault, UnsupportedFeature, ValidationFault};
use crate::kernels::{dagger, first_misfit, is_decomposition, trace};
use crate::matrix::{
    dagger_of, diagonal, identity_grid, is_matrix_difference, is_matrix_product, is_matrix_sum,
    is_scaled, zero_grid, Matrix,
};
use crate::ode::embed;
use crate::scalar::{Complex, Real, INFINITY_BITS, ONE_BITS};
use crate::symbols::SymbolTable;
use crate::typechecker::{Shape, TypedAst};
use crate::VALIDATION_TOL_BITS;
use vstd::prelude::*;

verus! {

/// Bit pattern of the negated tolerance, `-1e-10`.
pub const NEGATIVE_TOL_BITS: u64 = 0xbddb7cdfd9d7bdbb;

/// The tolerance of every check.
pub open spec fn tolerance() -> Real {
    Real { bits: VALIDATION_TOL_BITS }
}

/// The largest of `start` and the numbers `xs`, taken in their order; and
/// the first NaN among them, where there is one.
pub open spec fn fold_larger(xs: Seq<Real>, start: Real) -> Real
    decreases xs.len(),
{
    if xs.len() == 0 {
        start
    } else {
        fold_larger(xs.drop_last(), start).larger_or_nan(xs.last())
    }
}

/// The smallest of `start` and the numbers `xs`, taken in their order;
/// and the first NaN among them, where there is one.
pub open spec fn fold_smaller(xs: Seq<Real>, start: Real) -> Real
    decreases xs.len(),
{
    if xs.len() == 0 {
        start
    } else {
        fold_smaller(xs.drop_last(), start).smaller_or_nan(xs.last())
    }
}

/// The largest of `start` and the numbers of a grid, row after row.
pub open spec fn grid_larger(grid: Seq<Seq<Real>>, start: Real) -> Real
    decreases grid.len(),
{
    if grid.len() == 0 {
        start
    } else {
        fold_larger(grid.last(), grid_larger(grid.drop_last(), start))
    }
}

/// `norms` holds the modulus of each element of `grid`.
pub open spec fn is_norm_grid<A: Arithmetic>(
    ar: &A,
    grid: Seq<Seq<Complex>>,
    norms: Seq<Seq<Real>>,
) -> bool {
    &&& norms.len() == grid.len()
    &&& forall|i: int| 0 <= i < norms.len() ==> (#[trigger] norms[i]).len() == grid[i].len()
    &&& forall|i: int, j: int|
        0 <= i < norms.len() && 0 <= j < norms[i].len() ==> #[trigger] is_norm(
            ar,
            grid[i][j],
            norms[i][j],
        )
}

/// `r` is the largest modulus among the elements of `grid`, and 0 for a grid
/// without elements.
pub open spec fn is_max_norm<A: Arithmetic>(ar: &A, grid: Seq<Seq<Complex>>, r: Real) -> bool {
    exists|norms: Seq<Seq<Real>>| #[trigger]
        is_norm_grid(ar, grid, norms) && r == grid_larger(norms, Real { bits: 0 })
}

/// `dev` is the largest modulus among the elements of `M - M†`, for a square
/// `M` of dimension `n`.
pub open spec fn is_hermitian_deviation<A: Arithmetic>(
    ar: &A,
    m: Seq<Seq<Complex>>,
    n: nat,
    dev: Real,
) -> bool {
    exists|diff: Seq<Seq<Complex>>|
        is_matrix_difference(ar, m, dagger_of(m, n), diff) && #[trigger] is_max_norm(
            ar,
            diff,
            dev,
        )
}

/// What the Hermiticity check gives for a deviation: `true` where it is at
/// most the tolerance, and else an error that carries it. A deviation that
/// is not a number is an error.
pub open spec fn hermitian_verdict(dev: Real) -> Result<bool, EngineError> {
    if !dev.le(tolerance()) {
        Err(EngineError::NotHermitian { deviation: dev })
    } else {
        Ok(true)
    }
}

/// `r` is what the Hermiticity check gives for `mat`: `false` for a matrix
/// that is not square, else the verdict on its deviation.
pub open spec fn is_hermitian_check<A: Arithmetic>(
    ar: &A,
    mat: Matrix,
    r: Result<bool, EngineError>,
) -> bool {
    if !mat.is_square() {
        r == Ok::<bool, EngineError>(false)
    } else {
        exists|dev: Real| #[trigger]
            is_hermitian_deviation(ar, mat@, mat.nrows(), dev) && r == hermitian_verdict(dev)
    }
}

/// What the positivity check gives for the eigenvalues `values`: `true`
/// where the smallest is at least minus the tolerance, and else an error
/// that carries it. An eigenvalue that is not a number is an error.
pub open spec fn psd_verdict(values: Seq<Real>) -> Result<bool, EngineError> {
    let least = fold_smaller(values, Real { bits: INFINITY_BITS });
    if !(Real { bits: NEGATIVE_TOL_BITS }).le(least) {
        Err(EngineError::NotPSD { min_eigenvalue: least })
    } else {
        Ok(true)
    }
}

/// `r` is what the positivity check gives for `mat`.
pub open spec fn is_psd_check<A: Arithmetic>(
    ar: &A,
    mat: Matrix,
    r: Result<bool, EngineError>,
) -> bool {
    if !mat.is_square() {
        r == Err::<bool, EngineError>(
            EngineError::ValidationError(ValidationFault::PsdNeedsSquare),
        )
    } else {
        exists|h: Result<bool, EngineError>| #[trigger]
            is_hermitian_check(ar, mat, h) && if h != Ok::<bool, EngineError>(true) {
                r == Err::<bool, EngineError>(
                    EngineError::ValidationError(ValidationFault::PsdNeedsHermitian),
                )
            } else {
                is_spectrum_check(ar, mat, r)
            }
    }
}

/// `r` is the verdict on the eigenvalues that the eigensolver gives for
/// `mat`, or the error that it gave none.
pub open spec fn is_spectrum_check<A: Arithmetic>(
    ar: &A,
    mat: Matrix,
    r: Result<bool, EngineError>,
) -> bool {
    exists|d: Option<(Vec<Real>, Vec<Vec<Complex>>)>| #[trigger]
        is_decomposition(ar, mat.data, d) && match d {
            None => r == Err::<bool, EngineError>(
                EngineError::ValidationError(ValidationFault::EigenvaluesFailed),
            ),
            Some((values, _)) => r == psd_verdict(values@),
        }
}

/// `r` is what the trace check gives for `mat` and the expected trace.
pub open spec fn is_trace_check<A: Arithmetic>(
    ar: &A,
    mat: Matrix,
    expected: Real,
    r: Result<(), EngineError>,
) -> bool {
    if !mat.is_square() {
        r == Err::<(), EngineError>(
            EngineError::ValidationError(ValidationFault::TraceNeedsSquare),
        )
    } else {
        exists|t: Complex, off: Real|
            #![trigger is_total(ar, diagonal(mat@), t), is_real_difference(ar, t.re, expected, off)]
            is_total(ar, diagonal(mat@), t) && is_real_difference(ar, t.re, expected, off) && r
                == if !off.absolute().le(tolerance()) {
                Err::<(), EngineError>(EngineError::TraceError { expected, actual: t.re })
            } else {
                Ok::<(), EngineError>(())
            }
    }
}

/// The largest modulus among the elements of a matrix.
pub fn max_norm<A: Arithmetic>(ar: &A, mat: &Matrix) -> (r: Real)
    requires
        mat.wf(),
    ensures
        is_max_norm(ar, mat@, r),
{
    let mut best = Real::zero();
    let ghost mut norms: Seq<Seq<Real>> = Seq::empty();
    let mut i: usize = 0;
    while i < mat.rows()
        invariant
            i <= mat.nrows(),
            mat.wf(),
            norms.len() == i,
            forall|p: int| 0 <= p < i ==> (#[trigger] norms[p]).len() == mat@[p].len(),
            forall|p: int, q: int|
                0 <= p < i && 0 <= q < norms[p].len() ==> #[trigger] is_norm(
                    ar,
                    mat@[p][q],
                    norms[p][q],
                ),
            best == grid_larger(norms, Real { bits: 0 }),
        decreases mat.nrows() - i,
    {
        let ghost mut row: Seq<Real> = Seq::empty();
        let ghost start = best;
        let mut j: usize = 0;
        while j < mat.cols()
            invariant
                j <= mat.ncols(),
                i < mat.nrows(),
                mat.wf(),
                row.len() == j,
                forall|q: int| 0 <= q < j ==> #[trigger] is_norm(ar, mat@[i as int][q], row[q]),
                best == fold_larger(row, start),
            decreases mat.ncols() - j,
        {
            let d = ar.norm(mat.get(i, j));
            proof {
                let longer = row.push(d);
                assert(longer.drop_last() =~= row);
                row = longer;
            }
            best = best.max_or_nan(d);
            j += 1;
        }
        proof {
            let longer = norms.push(row);
            assert(longer.drop_last() =~= norms);
            norms = longer;
        }
        i += 1;
    }
    assert(is_norm_grid(ar, mat@, norms));
    best
}

/// Whether a matrix is Hermitian within the tolerance: the largest modulus
/// among the elements of `M - M†` must not exceed it. A matrix that is not
/// square gives `false`; a deviation above the tolerance, or one that is
/// not a number, is an error that
/// carries it.
pub fn check_hermitian<A: Arithmetic>(ar: &A, mat: &Matrix) -> (r: Result<bool, EngineError>)
    requires
        mat.wf(),
    ensures
        is_hermitian_check(ar, *mat, r),
{
    if mat.rows() != mat.cols() {
        return Ok(false);
    }
    let adjoint = dagger(mat);
    let diff = match mat.minus(ar, &adjoint) {
        Some(d) => d,
        None => vstd::pervasive::unreached(),
    };
    let dev = max_norm(ar, &diff);
    assert(is_matrix_difference(ar, mat@, dagger_of(mat@, mat.nrows()), diff@) && is_max_norm(
        ar,
        diff@,
        dev,
    ));
    assert(is_hermitian_deviation(ar, mat@, mat.nrows(), dev));
    if !dev.less_or_equal(Real::from_bits(VALIDATION_TOL_BITS)) {
        Err(EngineError::NotHermitian { deviation: dev })
    } else {
        Ok(true)
    }
}

/// Whether a matrix is positive semi-definite within the tolerance: it must
/// be square and Hermitian, and its smallest eigenvalue must not lie below
/// minus the tolerance.
pub fn check_psd<A: Arithmetic>(ar: &A, mat: &Matrix) -> (r: Result<bool, EngineError>)
    requires
        mat.wf(),
    ensures
        is_psd_check(ar, *mat, r),
{
    if mat.rows() != mat.cols() {
        return Err(EngineError::validation_error(ValidationFault::PsdNeedsSquare));
    }
    let h = check_hermitian(ar, mat);
    let hermitian = match &h {
        Ok(b) => *b,
        Err(_) => false,
    };
    if !hermitian {
        assert(is_hermitian_check(ar, *mat, h) && h != Ok::<bool, EngineError>(true));
        return Err(EngineError::validation_error(ValidationFault::PsdNeedsHermitian));
    }
    let d = ar.eigh(&mat.data);
    assert(is_decomposition(ar, mat.data, d));
    let values = match &d {
        Some((values, _)) => values,
        None => {
            return Err(EngineError::validation_error(ValidationFault::EigenvaluesFailed));
        },
    };
    let mut least = Real::from_bits(INFINITY_BITS);
    let mut k: usize = 0;
    while k < values.len()
        invariant
            k <= values@.len(),
            least == fold_smaller(values@.take(k as int), Real { bits: INFINITY_BITS }),
        decreases values@.len() - k,
    {
        proof {
            let t = values@.take(k as int + 1);
            assert(t.drop_last() =~= values@.take(k as int));
        }
        least = least.min_or_nan(values[k]);
        k += 1;
    }
    assert(values@.take(values@.len() as int) =~= values@);
    if !Real::from_bits(NEGATIVE_TOL_BITS).less_or_equal(least) {
        Err(EngineError::NotPSD { min_eigenvalue: least })
    } else {
        Ok(true)
    }
}

/// Whether the real part of the trace is the expected value within the
/// tolerance. The matrix must be square.
pub fn check_trace<A: Arithmetic>(ar: &A, mat: &Matrix, expected: Real) -> (r: Result<
    (),
    EngineError,
>)
    requires
        mat.wf(),
    ensures
        is_trace_check(ar, *mat, expected, r),
{
    let t = match trace(ar, mat) {
        Ok(t) => t,
        Err(_) => {
            return Err(EngineError::validation_error(ValidationFault::TraceNeedsSquare));
        },
    };
    let off = ar.sub_real(t.re, expected);
    assert(is_total(ar, diagonal(mat@), t) && is_real_difference(ar, t.re, expected, off));
    if !off.abs().less_or_equal(Real::from_bits(VALIDATION_TOL_BITS)) {
        Err(EngineError::TraceError { expected, actual: t.re })
    } else {
        Ok(())
    }
}

/// The error that evaluating `expr` to a number gives, if it gives one: a
/// name that is no constant, or a form that is no arithmetic; the left
/// operand is looked at first.
pub open spec fn constant_fault(constants: Map<Seq<char>, Real>, expr: Expr) -> Option<EngineError>
    decreases expr,
{
    match expr {
        Expr::Number(_) => None,
        Expr::ComplexNumber(_) => None,
        Expr::Identifier(name) => if constants.contains_key(name@) {
            None
        } else {
            Some(EngineError::ValidationError(ValidationFault::NotAConstant(name)))
        },
        Expr::Add(a, b) => match constant_fault(constants, *a) {
            Some(e) => Some(e),
            None => constant_fault(constants, *b),
        },
        Expr::Sub(a, b) => match constant_fault(constants, *a) {
            Some(e) => Some(e),
            None => constant_fault(constants, *b),
        },
        Expr::Mul(a, b) => match constant_fault(constants, *a) {
            Some(e) => Some(e),
            None => constant_fault(constants, *b),
        },
        Expr::Div(a, b) => match constant_fault(constants, *a) {
            Some(e) => Some(e),
            None => constant_fault(constants, *b),
        },
        _ => Some(EngineError::ValidationError(ValidationFault::NotConstantArithmetic)),
    }
}

/// `v` is the value of the constant expression `expr`: numbers stand for
/// themselves, names for their constants, and the four operations are those
/// of the supplier on the values of the operands.
pub open spec fn is_constant_value<A: Arithmetic>(
    ar: &A,
    constants: Map<Seq<char>, Real>,
    expr: Expr,
    v: Complex,
) -> bool
    decreases expr,
{
    match expr {
        Expr::Number(x) => v == embed(x),
        Expr::ComplexNumber(c) => v == c,
        Expr::Identifier(name) => constants.contains_key(name@) && v == embed(constants[name@]),
        Expr::Add(a, b) => exists|x: Complex, y: Complex|
            is_constant_value(ar, constants, *a, x) && is_constant_value(ar, constants, *b, y)
                && #[trigger] is_sum(ar, x, y, v),
        Expr::Sub(a, b) => exists|x: Complex, y: Complex|
            is_constant_value(ar, constants, *a, x) && is_constant_value(ar, constants, *b, y)
                && #[trigger] is_difference(ar, x, y, v),
        Expr::Mul(a, b) => exists|x: Complex, y: Complex|
            is_constant_value(ar, constants, *a, x) && is_constant_value(ar, constants, *b, y)
                && #[trigger] is_product(ar, x, y, v),
        Expr::Div(a, b) => exists|x: Complex, y: Complex|
            is_constant_value(ar, constants, *a, x) && is_constant_value(ar, constants, *b, y)
                && #[trigger] is_quotient(ar, x, y, v),
        _ => false,
    }
}

/// The error of the first element at or after `from` that is no constant
/// expression.
pub open spec fn row_fault(constants: Map<Seq<char>, Real>, row: Seq<Expr>, from: int) -> Option<
    EngineError,
>
    decreases row.len() - from,
{
    if from < 0 || from >= row.len() {
        None
    } else {
        match constant_fault(constants, row[from]) {
            Some(e) => Some(e),
            None => row_fault(constants, row, from + 1),
        }
    }
}

/// The error of the first element, row after row from row `from` on, that is
/// no constant expression.
pub open spec fn rows_fault(
    constants: Map<Seq<char>, Real>,
    rows: Seq<Vec<Expr>>,
    from: int,
) -> Option<EngineError>
    decreases rows.len() - from,
{
    if from < 0 || from >= rows.len() {
        None
    } else {
        match row_fault(constants, rows[from]@, 0) {
            Some(e) => Some(e),
            None => rows_fault(constants, rows, from + 1),
        }
    }
}

/// The error that evaluating a matrix literal gives, if it gives one: no
/// rows, an element that is no constant expression, or rows of different
/// lengths, looked for in this order.
pub open spec fn literal_fault(constants: Map<Seq<char>, Real>, mat: MatrixLiteral) -> Option<
    EngineError,
> {
    if mat.rows@.len() == 0 {
        Some(EngineError::ValidationError(ValidationFault::MalformedMatrix))
    } else {
        match rows_fault(constants, mat.rows@, 0) {
            Some(e) => Some(e),
            None => if crate::typechecker::ragged_row(mat.rows@, mat.rows@[0]@.len(), 0) is Some {
                Some(EngineError::ValidationError(ValidationFault::MalformedMatrix))
            } else {
                None
            },
        }
    }
}

/// `values` are the values of the constant expressions `row`.
pub open spec fn is_row_value<A: Arithmetic>(
    ar: &A,
    constants: Map<Seq<char>, Real>,
    row: Seq<Expr>,
    values: Seq<Complex>,
) -> bool {
    &&& values.len() == row.len()
    &&& forall|j: int|
        0 <= j < row.len() ==> #[trigger] is_constant_value(ar, constants, row[j], values[j])
}

/// `m` holds the values of the elements of a matrix literal.
pub open spec fn is_literal_value<A: Arithmetic>(
    ar: &A,
    constants: Map<Seq<char>, Real>,
    mat: MatrixLiteral,
    m: Seq<Seq<Complex>>,
) -> bool {
    &&& m.len() == mat.rows@.len()
    &&& forall|i: int|
        0 <= i < m.len() ==> #[trigger] is_row_value(ar, constants, mat.rows@[i]@, m[i])
}

/// Evaluates the elements of a row of a literal, first element first.
fn evaluate_row<A: Arithmetic>(ar: &A, constants: &SymbolTable<Real>, row: &Vec<Expr>) -> (r:
    Result<Vec<Complex>, EngineError>)
    ensures
        match r {
            Ok(values) => row_fault(constants@, row@, 0) is None && is_row_value(
                ar,
                constants@,
                row@,
                values@,
            ),
            Err(e) => row_fault(constants@, row@, 0) == Some(e),
        },
{
    let mut values: Vec<Complex> = Vec::new();
    let mut j: usize = 0;
    while j < row.len()
        invariant
            j <= row@.len(),
            values@.len() == j,
            row_fault(constants@, row@, 0) == row_fault(constants@, row@, j as int),
            forall|q: int|
                0 <= q < j ==> #[trigger] is_constant_value(ar, constants@, row@[q], values@[q]),
        decreases row@.len() - j,
    {
        match evaluate_expr_to_complex(ar, constants, &row[j]) {
            Ok(v) => {
                values.push(v);
            },
            Err(e) => {
                return Err(e);
            },
        }
        j += 1;
    }
    Ok(values)
}

/// The value of a constant expression: numbers, names of constants, and
/// sums, differences, products and quotients of such.
pub fn evaluate_expr_to_complex<A: Arithmetic>(
    ar: &A,
    constants: &SymbolTable<Real>,
    expr: &Expr,
) -> (r: Result<Complex, EngineError>)
    ensures
        match r {
            Ok(v) => constant_fault(constants@, *expr) is None && is_constant_value(
                ar,
                constants@,
                *expr,
                v,
            ),
            Err(e) => constant_fault(constants@, *expr) == Some(e),
        },
    decreases expr,
{
    match expr {
        Expr::Number(x) => Ok(Complex::from_real(*x)),
        Expr::ComplexNumber(c) => Ok(*c),
        Expr::Identifier(name) => match constants.get(name) {
            Some(value) => Ok(Complex::from_real(*value)),
            None => Err(
                EngineError::validation_error(ValidationFault::NotAConstant(name.clone())),
            ),
        },
        Expr::Add(a, b) => {
            let x = match evaluate_expr_to_complex(ar, constants, a) {
                Ok(x) => x,
                Err(e) => {
                    return Err(e);
                },
            };
            let y = match evaluate_expr_to_complex(ar, constants, b) {
                Ok(y) => y,
                Err(e) => {
                    return Err(e);
                },
            };
            let v = ar.add_complex(x, y);
            assert(is_constant_value(ar, constants@, **a, x) && is_constant_value(
                ar,
                constants@,
                **b,
                y,
            ) && is_sum(ar, x, y, v));
            Ok(v)
        },
        Expr::Sub(a, b) => {
            let x = match evaluate_expr_to_complex(ar, constants, a) {
                Ok(x) => x,
                Err(e) => {
                    return Err(e);
                },
            };
            let y = match evaluate_expr_to_complex(ar, constants, b) {
                Ok(y) => y,
                Err(e) => {
                    return Err(e);
                },
            };
            let v = ar.sub_complex(x, y);
            assert(is_constant_value(ar, constants@, **a, x) && is_constant_value(
                ar,
                constants@,
                **b,
                y,
            ) && is_difference(ar, x, y, v));
            Ok(v)
        },
        Expr::Mul(a, b) => {
            let x = match evaluate_expr_to_complex(ar, constants, a) {
                Ok(x) => x,
                Err(e) => {
                    return Err(e);
                },
            };
            let y = match evaluate_expr_to_complex(ar, constants, b) {
                Ok(y) => y,
                Err(e) => {
                    return Err(e);
                },
            };
            let v = ar.mul_complex(x, y);
            assert(is_constant_value(ar, constants@, **a, x) && is_constant_value(
                ar,
                constants@,
                **b,
                y,
            ) && is_product(ar, x, y, v));
            Ok(v)
        },
        Expr::Div(a, b) => {
            let x = match evaluate_expr_to_complex(ar, constants, a) {
                Ok(x) => x,
                Err(e) => {
                    return Err(e);
                },
            };
            let y = match evaluate_expr_to_complex(ar, constants, b) {
                Ok(y) => y,
                Err(e) => {
                    return Err(e);
                },
            };
            let v = ar.div_complex(x, y);
            assert(is_constant_value(ar, constants@, **a, x) && is_constant_value(
                ar,
                constants@,
                **b,
                y,
            ) && is_quotient(ar, x, y, v));
            Ok(v)
        },
        _ => Err(EngineError::validation_error(ValidationFault::NotConstantArithmetic)),
    }
}

/// The matrix that a literal denotes. A literal without rows, with an
/// element that is no constant expression, or with rows of different
/// lengths is an error.
pub fn evaluate_matrix_literal<A: Arithmetic>(
    ar: &A,
    constants: &SymbolTable<Real>,
    mat: &MatrixLiteral,
) -> (r: Result<Matrix, EngineError>)
    ensures
        match r {
            Ok(m) => literal_fault(constants@, *mat) is None && m.wf() && m.nrows()
                == mat.rows@.len() && m.ncols() == mat.rows@[0]@.len() && is_literal_value(
                ar,
                constants@,
                *mat,
                m@,
            ),
            Err(e) => literal_fault(constants@, *mat) == Some(e),
        },
{
    if mat.rows.len() == 0 {
        return Err(EngineError::validation_error(ValidationFault::MalformedMatrix));
    }
    let mut data: Vec<Vec<Complex>> = Vec::new();
    let mut i: usize = 0;
    while i < mat.rows.len()
        invariant
            i <= mat.rows@.len(),
            mat.rows@.len() > 0,
            data@.len() == i,
            rows_fault(constants@, mat.rows@, 0) == rows_fault(constants@, mat.rows@, i as int),
            forall|p: int|
                0 <= p < i ==> #[trigger] is_row_value(
                    ar,
                    constants@,
                    mat.rows@[p]@,
                    data@[p]@,
                ),
        decreases mat.rows@.len() - i,
    {
        match evaluate_row(ar, constants, &mat.rows[i]) {
            Ok(values) => {
                data.push(values);
            },
            Err(e) => {
                return Err(e);
            },
        }
        i += 1;
    }
    let ghost grid = Seq::new(data@.len(), |p: int| data@[p]@);
    assert forall|p: int| 0 <= p < data@.len() implies (#[trigger] data@[p])@.len()
        == mat.rows@[p]@.len() by {
        assert(is_row_value(ar, constants@, mat.rows@[p]@, data@[p]@));
    }
    match Matrix::from_rows(data) {
        Some(m) => {
            assert(m@ =~= grid);
            assert forall|p: int| 0 <= p < mat.rows@.len() implies (#[trigger] mat.rows@[p])@.len()
                == mat.rows@[0]@.len() by {
                assert(m.data@[p]@.len() == m.cols);
            }
            proof {
                lemma_not_ragged(mat.rows@, mat.rows@[0]@.len(), 0);
            }
            assert forall|p: int| 0 <= p < m@.len() implies #[trigger] is_row_value(
                ar,
                constants@,
                mat.rows@[p]@,
                m@[p],
            ) by {
                assert(m@[p] == data@[p]@);
            }
            Ok(m)
        },
        None => {
            proof {
                lemma_ragged(mat.rows@, mat.rows@[0]@.len(), 0);
            }
            Err(EngineError::validation_error(ValidationFault::MalformedMatrix))
        },
    }
}

/// Rows that all have one length hold no ragged row.
pub proof fn lemma_not_ragged(rows: Seq<Vec<Expr>>, width: nat, from: int)
    requires
        0 <= from,
        forall|p: int| from <= p < rows.len() ==> (#[trigger] rows[p])@.len() == width,
    ensures
        crate::typechecker::ragged_row(rows, width, from) is None,
    decreases rows.len() - from,
{
    if from < rows.len() {
        lemma_not_ragged(rows, width, from + 1);
    }
}

/// Rows of which one differs in length hold a ragged row.
pub proof fn lemma_ragged(rows: Seq<Vec<Expr>>, width: nat, from: int)
    requires
        0 <= from,
        exists|p: int| from <= p < rows.len() && (#[trigger] rows[p])@.len() != width,
    ensures
        crate::typechecker::ragged_row(rows, width, from) is Some,
    decreases rows.len() - from,
{
    if from < rows.len() && rows[from]@.len() == width {
        let p = choose|p: int| from <= p < rows.len() && (#[trigger] rows[p])@.len() != width;
        assert(from + 1 <= p < rows.len() && rows[p]@.len() != width);
        lemma_ragged(rows, width, from + 1);
    }
}

/// The vector that a literal denotes; an element that is no constant
/// expression is an error.
pub fn evaluate_vector_literal<A: Arithmetic>(
    ar: &A,
    constants: &SymbolTable<Real>,
    vec: &VectorLiteral,
) -> (r: Result<Vec<Complex>, EngineError>)
    ensures
        match r {
            Ok(values) => row_fault(constants@, vec.elements@, 0) is None && is_row_value(
                ar,
                constants@,
                vec.elements@,
                values@,
            ),
            Err(e) => row_fault(constants@, vec.elements@, 0) == Some(e),
        },
{
    evaluate_row(ar, constants, &vec.elements)
}

/// The shape of the matrix that `expr` denotes, or the error that its
/// evaluation gives: literals, names of matrices, and products, sums and
/// differences of such, the left operand first. In a product, a factor
/// that is arithmetic over constants is a scalar, the left factor being
/// looked at first.
pub open spec fn matrix_expr_shape(
    constants: Map<Seq<char>, Real>,
    matrices: Map<Seq<char>, Matrix>,
    expr: Expr,
) -> Result<(nat, nat), EngineError>
    decreases expr,
{
    match expr {
        Expr::Matrix(mat) => match literal_fault(constants, mat) {
            Some(e) => Err(e),
            None => Ok((mat.rows@.len(), mat.rows@[0]@.len())),
        },
        Expr::Identifier(name) => if matrices.contains_key(name@) {
            Ok((matrices[name@].nrows(), matrices[name@].ncols()))
        } else {
            Err(EngineError::ValidationError(ValidationFault::MatrixNotFound(name)))
        },
        Expr::Mul(a, b) => if constant_fault(constants, *a) is None {
            matrix_expr_shape(constants, matrices, *b)
        } else if constant_fault(constants, *b) is None {
            matrix_expr_shape(constants, matrices, *a)
        } else {
            match matrix_expr_shape(constants, matrices, *a) {
                Err(e) => Err(e),
                Ok(left) => match matrix_expr_shape(constants, matrices, *b) {
                    Err(e) => Err(e),
                    Ok(right) => if left.1 != right.0 {
                        Err(
                            EngineError::DimensionMismatch {
                                expected: Shape::Matrix(left.0 as usize, left.1 as usize),
                                actual: Shape::Matrix(right.0 as usize, right.1 as usize),
                            },
                        )
                    } else {
                        Ok((left.0, right.1))
                    },
                },
            }
        },
        Expr::Add(a, b) => match matrix_expr_shape(constants, matrices, *a) {
            Err(e) => Err(e),
            Ok(left) => match matrix_expr_shape(constants, matrices, *b) {
                Err(e) => Err(e),
                Ok(right) => if left != right {
                    Err(
                        EngineError::DimensionMismatch {
                            expected: Shape::Matrix(left.0 as usize, left.1 as usize),
                            actual: Shape::Matrix(right.0 as usize, right.1 as usize),
                        },
                    )
                } else {
                    Ok(left)
                },
            },
        },
        Expr::Sub(a, b) => match matrix_expr_shape(constants, matrices, *a) {
            Err(e) => Err(e),
            Ok(left) => match matrix_expr_shape(constants, matrices, *b) {
                Err(e) => Err(e),
                Ok(right) => if left != right {
                    Err(
                        EngineError::DimensionMismatch {
                            expected: Shape::Matrix(left.0 as usize, left.1 as usize),
                            actual: Shape::Matrix(right.0 as usize, right.1 as usize),
                        },
                    )
                } else {
                    Ok(left)
                },
            },
        },
        _ => Err(EngineError::Unsupported(UnsupportedFeature::MatrixExpression)),
    }
}

/// `m` is the matrix that `expr` denotes, of `width` columns. A matrix
/// times a scalar has each of its elements multiplied by the scalar, the
/// element being the left factor.
pub open spec fn is_matrix_value<A: Arithmetic>(
    ar: &A,
    constants: Map<Seq<char>, Real>,
    matrices: Map<Seq<char>, Matrix>,
    expr: Expr,
    width: nat,
    m: Seq<Seq<Complex>>,
) -> bool
    decreases expr,
{
    match expr {
        Expr::Matrix(mat) => is_literal_value(ar, constants, mat, m),
        Expr::Identifier(name) => matrices.contains_key(name@) && m == matrices[name@]@,
        Expr::Mul(a, b) => if constant_fault(constants, *a) is None {
            exists|s: Complex, y: Seq<Seq<Complex>>|
                is_constant_value(ar, constants, *a, s) && is_matrix_value(
                    ar,
                    constants,
                    matrices,
                    *b,
                    width,
                    y,
                ) && #[trigger] is_scaled(ar, y, s, m)
        } else if constant_fault(constants, *b) is None {
            exists|s: Complex, x: Seq<Seq<Complex>>|
                is_constant_value(ar, constants, *b, s) && is_matrix_value(
                    ar,
                    constants,
                    matrices,
                    *a,
                    width,
                    x,
                ) && #[trigger] is_scaled(ar, x, s, m)
        } else {
            exists|x: Seq<Seq<Complex>>, y: Seq<Seq<Complex>>|
                is_matrix_value(ar, constants, matrices, *a, y.len(), x) && is_matrix_value(
                    ar,
                    constants,
                    matrices,
                    *b,
                    width,
                    y,
                ) && #[trigger] is_matrix_product(ar, x, y, width, m)
        },
        Expr::Add(a, b) => exists|x: Seq<Seq<Complex>>, y: Seq<Seq<Complex>>|
            is_matrix_value(ar, constants, matrices, *a, width, x) && is_matrix_value(
                ar,
                constants,
                matrices,
                *b,
                width,
                y,
            ) && #[trigger] is_matrix_sum(ar, x, y, m),
        Expr::Sub(a, b) => exists|x: Seq<Seq<Complex>>, y: Seq<Seq<Complex>>|
            is_matrix_value(ar, constants, matrices, *a, width, x) && is_matrix_value(
                ar,
                constants,
                matrices,
                *b,
                width,
                y,
            ) && #[trigger] is_matrix_difference(ar, x, y, m),
        _ => false,
    }
}

/// Whether every matrix of a table is well-formed.
pub open spec fn all_well_formed(entries: Seq<(String, Matrix)>) -> bool {
    forall|i: int| 0 <= i < entries.len() ==> (#[trigger] entries[i]).1.wf()
}

/// The matrix that an expression denotes: a literal, the name of a matrix,
/// or a product, sum or difference of such; a factor that is arithmetic
/// over constants scales the other factor. Shapes that do not fit are a
/// dimension mismatch; other forms are unsupported.
pub fn evaluate_expr_to_matrix<A: Arithmetic>(
    ar: &A,
    constants: &SymbolTable<Real>,
    matrices: &SymbolTable<Matrix>,
    expr: &Expr,
) -> (r: Result<Matrix, EngineError>)
    requires
        all_well_formed(matrices.entries@),
    ensures
        match r {
            Ok(m) => m.wf() && matrix_expr_shape(constants@, matrices@, *expr) == Ok::<
                (nat, nat),
                EngineError,
            >((m.nrows(), m.ncols())) && is_matrix_value(
                ar,
                constants@,
                matrices@,
                *expr,
                m.ncols(),
                m@,
            ),
            Err(e) => matrix_expr_shape(constants@, matrices@, *expr) == Err::<
                (nat, nat),
                EngineError,
            >(e),
        },
    decreases expr,
{
    match expr {
        Expr::Matrix(mat) => evaluate_matrix_literal(ar, constants, mat),
        Expr::Identifier(name) => match matrices.get(name) {
            Some(m) => Ok(m.duplicate()),
            None => Err(
                EngineError::validation_error(ValidationFault::MatrixNotFound(name.clone())),
            ),
        },
        Expr::Mul(a, b) => {
            match evaluate_expr_to_complex(ar, constants, a) {
                Ok(s) => {
                    let right = match evaluate_expr_to_matrix(ar, constants, matrices, b) {
                        Ok(m) => m,
                        Err(e) => {
                            return Err(e);
                        },
                    };
                    let m = right.scaled(ar, s);
                    assert(is_constant_value(ar, constants@, **a, s) && is_matrix_value(
                        ar,
                        constants@,
                        matrices@,
                        **b,
                        right.ncols(),
                        right@,
                    ) && is_scaled(ar, right@, s, m@));
                    return Ok(m);
                },
                Err(_) => {},
            }
            match evaluate_expr_to_complex(ar, constants, b) {
                Ok(s) => {
                    let left = match evaluate_expr_to_matrix(ar, constants, matrices, a) {
                        Ok(m) => m,
                        Err(e) => {
                            return Err(e);
                        },
                    };
                    let m = left.scaled(ar, s);
                    assert(is_constant_value(ar, constants@, **b, s) && is_matrix_value(
                        ar,
                        constants@,
                        matrices@,
                        **a,
                        left.ncols(),
                        left@,
                    ) && is_scaled(ar, left@, s, m@));
                    return Ok(m);
                },
                Err(_) => {},
            }
            let left = match evaluate_expr_to_matrix(ar, constants, matrices, a) {
                Ok(m) => m,
                Err(e) => {
                    return Err(e);
                },
            };
            let right = match evaluate_expr_to_matrix(ar, constants, matrices, b) {
                Ok(m) => m,
                Err(e) => {
                    return Err(e);
                },
            };
            match left.times(ar, &right) {
                Some(m) => {
                    assert(is_matrix_value(
                        ar,
                        constants@,
                        matrices@,
                        **a,
                        left.ncols(),
                        left@,
                    ) && is_matrix_value(ar, constants@, matrices@, **b, right.ncols(), right@)
                        && is_matrix_product(
                        ar,
                        left@,
                        right@,
                        right.ncols(),
                        m@,
                    ));
                    Ok(m)
                },
                None => Err(
                    EngineError::dimension_mismatch(
                        Shape::Matrix(left.rows(), left.cols()),
                        Shape::Matrix(right.rows(), right.cols()),
                    ),
                ),
            }
        },
        Expr::Add(a, b) => {
            let left = match evaluate_expr_to_matrix(ar, constants, matrices, a) {
                Ok(m) => m,
                Err(e) => {
                    return Err(e);
                },
            };
            let right = match evaluate_expr_to_matrix(ar, constants, matrices, b) {
                Ok(m) => m,
                Err(e) => {
                    return Err(e);
                },
            };
            match left.plus(ar, &right) {
                Some(m) => {
                    assert(is_matrix_value(
                        ar,
                        constants@,
                        matrices@,
                        **a,
                        left.ncols(),
                        left@,
                    ) && is_matrix_value(ar, constants@, matrices@, **b, right.ncols(), right@)
                        && is_matrix_sum(ar, left@, right@, m@));
                    Ok(m)
                },
                None => Err(
                    EngineError::dimension_mismatch(
                        Shape::Matrix(left.rows(), left.cols()),
                        Shape::Matrix(right.rows(), right.cols()),
                    ),
                ),
            }
        },
        Expr::Sub(a, b) => {
            let left = match evaluate_expr_to_matrix(ar, constants, matrices, a) {
                Ok(m) => m,
                Err(e) => {
                    return Err(e);
                },
            };
            let right = match evaluate_expr_to_matrix(ar, constants, matrices, b) {
                Ok(m) => m,
                Err(e) => {
                    return Err(e);
                },
            };
            match left.minus(ar, &right) {
                Some(m) => {
                    assert(is_matrix_value(
                        ar,
                        constants@,
                        matrices@,
                        **a,
                        left.ncols(),
                        left@,
                    ) && is_matrix_value(ar, constants@, matrices@, **b, right.ncols(), right@)
                        && is_matrix_difference(ar, left@, right@, m@));
                    Ok(m)
                },
                None => Err(
                    EngineError::dimension_mismatch(
                        Shape::Matrix(left.rows(), left.cols()),
                        Shape::Matrix(right.rows(), right.cols()),
                    ),
                ),
            }
        },
        _ => Err(EngineError::Unsupported(UnsupportedFeature::MatrixExpression)),
    }
}

/// `norm` is the largest modulus among the elements of `P P - P`, for a
/// square `P` of dimension `n`.
pub open spec fn is_idempotence_norm<A: Arithmetic>(
    ar: &A,
    p: Seq<Seq<Complex>>,
    n: nat,
    norm: Real,
) -> bool {
    exists|squared: Seq<Seq<Complex>>, diff: Seq<Seq<Complex>>|
        is_matrix_product(ar, p, p, n, squared) && #[trigger] is_matrix_difference(
            ar,
            squared,
            p,
            diff,
        ) && is_max_norm(ar, diff, norm)
}

/// What the checks of one projector give for its matrix `m`: the error of
/// the Hermiticity check; a dimension mismatch where `m` is not square; an
/// error where `m m - m` exceeds the tolerance; else `m` itself.
pub open spec fn is_projector_verdict<A: Arithmetic>(
    ar: &A,
    m: Matrix,
    index: usize,
    name: String,
    r: Result<Matrix, EngineError>,
) -> bool {
    exists|h: Result<bool, EngineError>| #[trigger]
        is_hermitian_check(ar, m, h) && match h {
            Err(e) => r == Err::<Matrix, EngineError>(e),
            Ok(_) => if !m.is_square() {
                r == Err::<Matrix, EngineError>(
                    EngineError::DimensionMismatch {
                        expected: Shape::Matrix(m.nrows() as usize, m.nrows() as usize),
                        actual: m.shape(),
                    },
                )
            } else {
                exists|norm: Real| #[trigger]
                    is_idempotence_norm(ar, m@, m.nrows(), norm) && r == if !norm.le(tolerance()) {
                        Err::<Matrix, EngineError>(
                            EngineError::QuantumConstraintError(
                                QuantumFault::ProjectorNotIdempotent {
                                    index,
                                    measurement: name,
                                    deviation: norm,
                                },
                            ),
                        )
                    } else {
                        Ok::<Matrix, EngineError>(m)
                    }
            },
        }
}

/// The least eigenvalue that a failed positivity check reports, if it came
/// to compute one.
pub open spec fn least_eigenvalue(e: EngineError) -> Option<Real> {
    match e {
        EngineError::NotPSD { min_eigenvalue } => Some(min_eigenvalue),
        _ => None,
    }
}

/// The error of a set of operators that does not sum to the identity.
pub open spec fn incomplete(projective: bool, name: String, deviation: Real) -> QuantumFault {
    if projective {
        QuantumFault::ProjectorsIncomplete { measurement: name, deviation }
    } else {
        QuantumFault::EffectsIncomplete { measurement: name, deviation }
    }
}

/// What the check of one effect gives for its matrix `m`: an error where
/// the positivity check fails in any way, else `m` itself.
pub open spec fn is_effect_verdict<A: Arithmetic>(
    ar: &A,
    m: Matrix,
    index: usize,
    name: String,
    r: Result<Matrix, EngineError>,
) -> bool {
    exists|p: Result<bool, EngineError>| #[trigger]
        is_psd_check(ar, m, p) && r == match p {
            Ok(_) => Ok::<Matrix, EngineError>(m),
            Err(e) => Err::<Matrix, EngineError>(
                EngineError::QuantumConstraintError(
                    QuantumFault::EffectNotPsd {
                        index,
                        measurement: name,
                        min_eigenvalue: least_eigenvalue(e),
                    },
                ),
            ),
        }
}

/// What the check of operator `index` of a measurement gives: the error of
/// its literal, or the verdict on the matrix that the literal denotes.
pub open spec fn is_operator_check<A: Arithmetic>(
    ar: &A,
    constants: Map<Seq<char>, Real>,
    lit: MatrixLiteral,
    projective: bool,
    index: usize,
    name: String,
    r: Result<Matrix, EngineError>,
) -> bool {
    match literal_fault(constants, lit) {
        Some(e) => r == Err::<Matrix, EngineError>(e),
        None => exists|m: Matrix| #[trigger]
            is_literal_value(ar, constants, lit, m@) && m.wf() && m.nrows() == lit.rows@.len()
                && m.ncols() == lit.rows@[0]@.len() && if projective {
                is_projector_verdict(ar, m, index, name, r)
            } else {
                is_effect_verdict(ar, m, index, name, r)
            },
    }
}

/// The first `mats.len()` operators of a measurement pass their checks and
/// denote the matrices `mats`.
pub open spec fn operators_pass<A: Arithmetic>(
    ar: &A,
    constants: Map<Seq<char>, Real>,
    lits: Seq<MatrixLiteral>,
    projective: bool,
    name: String,
    mats: Seq<Matrix>,
) -> bool {
    &&& mats.len() <= lits.len()
    &&& forall|k: int|
        0 <= k < mats.len() ==> #[trigger] is_operator_check(
            ar,
            constants,
            lits[k],
            projective,
            k as usize,
            name,
            Ok(mats[k]),
        )
}

/// `s` is the sum of the first `count` matrices, added to the zero matrix
/// of dimension `dim` in their order.
pub open spec fn is_running_sum<A: Arithmetic>(
    ar: &A,
    mats: Seq<Matrix>,
    dim: nat,
    count: nat,
    s: Seq<Seq<Complex>>,
) -> bool
    decreases count,
{
    if count == 0 {
        s == zero_grid(dim, dim)
    } else {
        exists|before: Seq<Seq<Complex>>|
            is_running_sum(ar, mats, dim, (count - 1) as nat, before) && #[trigger] is_matrix_sum(
                ar,
                before,
                mats[count - 1]@,
                s,
            )
    }
}

/// `norm` is the largest modulus among the elements of the sum of `mats`
/// minus the identity of dimension `dim`.
pub open spec fn is_completeness_norm<A: Arithmetic>(
    ar: &A,
    mats: Seq<Matrix>,
    dim: nat,
    norm: Real,
) -> bool {
    exists|sum: Seq<Seq<Complex>>, diff: Seq<Seq<Complex>>|
        is_running_sum(ar, mats, dim, mats.len(), sum) && #[trigger] is_matrix_difference(
            ar,
            sum,
            identity_grid(dim),
            diff,
        ) && is_max_norm(ar, diff, norm)
}

/// What the completeness check gives for the matrices of a measurement:
/// nothing to check for none; a dimension mismatch for a matrix that is not
/// square of the first one's number of rows; an error with the deviation
/// where the sum differs from the identity by more than the tolerance.
pub open spec fn is_completeness_check<A: Arithmetic>(
    ar: &A,
    mats: Seq<Matrix>,
    projective: bool,
    name: String,
    r: Result<(), EngineError>,
) -> bool {
    if mats.len() == 0 {
        r == Ok::<(), EngineError>(())
    } else {
        let dim = mats[0].nrows();
        match first_misfit(mats, dim, 0) {
            Some(k) => r == Err::<(), EngineError>(
                EngineError::DimensionMismatch {
                    expected: Shape::Matrix(dim as usize, dim as usize),
                    actual: mats[k].shape(),
                },
            ),
            None => exists|norm: Real| #[trigger]
                is_completeness_norm(ar, mats, dim, norm) && r == if !norm.le(tolerance()) {
                    Err::<(), EngineError>(
                        EngineError::QuantumConstraintError(incomplete(projective, name, norm)),
                    )
                } else {
                    Ok::<(), EngineError>(())
                },
        }
    }
}

/// The literals of a measurement, and whether it is projective.
pub open spec fn measurement_parts(spec: MeasurementSpec) -> (Seq<MatrixLiteral>, bool) {
    match spec {
        MeasurementSpec::Projective { projectors } => (projectors@, true),
        MeasurementSpec::POVM { effects } => (effects@, false),
    }
}

/// `r` is what the validation of a measurement gives: the error of the
/// first operator that fails its check, else what the completeness check
/// gives for the matrices of all operators.
pub open spec fn is_measurement_validated<A: Arithmetic>(
    ar: &A,
    constants: Map<Seq<char>, Real>,
    name: String,
    spec: MeasurementSpec,
    r: Result<(), EngineError>,
) -> bool {
    is_operators_validated(
        ar,
        constants,
        name,
        measurement_parts(spec).0,
        measurement_parts(spec).1,
        r,
    )
}

/// `r` is what the validation of the operators `lits` of a measurement
/// gives; see [`is_measurement_validated`].
pub open spec fn is_operators_validated<A: Arithmetic>(
    ar: &A,
    constants: Map<Seq<char>, Real>,
    name: String,
    lits: Seq<MatrixLiteral>,
    projective: bool,
    r: Result<(), EngineError>,
) -> bool {
    exists|mats: Seq<Matrix>| #[trigger]
        operators_pass(ar, constants, lits, projective, name, mats) && if mats.len()
            < lits.len() {
            r is Err && is_operator_check(
                ar,
                constants,
                lits[mats.len() as int],
                projective,
                mats.len() as usize,
                name,
                Err(r->Err_0),
            )
        } else {
            is_completeness_check(ar, mats, projective, name, r)
        }
}

/// Checks one projector: Hermitian, square, and `P P = P` within the
/// tolerance.
fn check_projector<A: Arithmetic>(ar: &A, m: Matrix, index: usize, name: &String) -> (r: Result<
    Matrix,
    EngineError,
>)
    requires
        m.wf(),
    ensures
        is_projector_verdict(ar, m, index, *name, r),
        r is Ok ==> r->Ok_0 == m,
{
    let h = check_hermitian(ar, &m);
    match h {
        Err(e) => {
            return Err(e);
        },
        Ok(_) => {},
    }
    let squared = match m.times(ar, &m) {
        Some(s) => s,
        None => {
            return Err(
                EngineError::dimension_mismatch(
                    Shape::Matrix(m.rows(), m.rows()),
                    Shape::Matrix(m.rows(), m.cols()),
                ),
            );
        },
    };
    let diff = match squared.minus(ar, &m) {
        Some(d) => d,
        None => vstd::pervasive::unreached(),
    };
    let norm = max_norm(ar, &diff);
    assert(is_matrix_product(ar, m@, m@, m.nrows(), squared@) && is_matrix_difference(
        ar,
        squared@,
        m@,
        diff@,
    ) && is_max_norm(ar, diff@, norm));
    assert(is_idempotence_norm(ar, m@, m.nrows(), norm));
    if !norm.less_or_equal(Real::from_bits(VALIDATION_TOL_BITS)) {
        Err(
            EngineError::quantum_error(
                QuantumFault::ProjectorNotIdempotent {
                    index,
                    measurement: name.clone(),
                    deviation: norm,
                },
            ),
        )
    } else {
        Ok(m)
    }
}

/// Checks one effect: positive semi-definite within the tolerance.
fn check_effect<A: Arithmetic>(ar: &A, m: Matrix, index: usize, name: &String) -> (r: Result<
    Matrix,
    EngineError,
>)
    requires
        m.wf(),
    ensures
        is_effect_verdict(ar, m, index, *name, r),
        r is Ok ==> r->Ok_0 == m,
{
    let p = check_psd(ar, &m);
    match p {
        Ok(_) => Ok(m),
        Err(e) => {
            let min_eigenvalue = match e {
                EngineError::NotPSD { min_eigenvalue } => Some(min_eigenvalue),
                _ => None,
            };
            Err(
                EngineError::quantum_error(
                    QuantumFault::EffectNotPsd { index, measurement: name.clone(), min_eigenvalue },
                ),
            )
        },
    }
}

/// Checks that the matrices sum to the identity within the tolerance.
fn check_completeness<A: Arithmetic>(
    ar: &A,
    mats: &Vec<Matrix>,
    projective: bool,
    name: &String,
) -> (r: Result<(), EngineError>)
    requires
        forall|k: int| 0 <= k < mats@.len() ==> (#[trigger] mats@[k]).wf(),
    ensures
        is_completeness_check(ar, mats@, projective, *name, r),
{
    if mats.len() == 0 {
        return Ok(());
    }
    let dim: usize = mats[0].rows();
    let mut sum = Matrix::zeros(dim, dim);
    let mut k: usize = 0;
    while k < mats.len()
        invariant
            k <= mats@.len(),
            mats@.len() > 0,
            dim == mats@[0].nrows(),
            forall|p: int| 0 <= p < mats@.len() ==> (#[trigger] mats@[p]).wf(),
            first_misfit(mats@, dim as nat, 0) == first_misfit(mats@, dim as nat, k as int),
            sum.wf(),
            sum.nrows() == dim,
            sum.ncols() == dim,
            is_running_sum(ar, mats@, dim as nat, k as nat, sum@),
        decreases mats@.len() - k,
    {
        let next = match sum.plus(ar, &mats[k]) {
            Some(s) => s,
            None => {
                return Err(
                    EngineError::dimension_mismatch(
                        Shape::Matrix(dim, dim),
                        Shape::Matrix(mats[k].rows(), mats[k].cols()),
                    ),
                );
            },
        };
        assert(is_running_sum(ar, mats@, dim as nat, k as nat, sum@) && is_matrix_sum(
            ar,
            sum@,
            mats@[k as int]@,
            next@,
        ));
        proof {
            let c: nat = (k + 1) as nat;
            assert(mats@[c - 1] == mats@[k as int]);
            assert(is_running_sum(ar, mats@, dim as nat, (c - 1) as nat, sum@) && is_matrix_sum(
                ar,
                sum@,
                mats@[c - 1]@,
                next@,
            ));
            assert(is_running_sum(ar, mats@, dim as nat, c, next@));
        }
        sum = next;
        k += 1;
    }
    let identity = Matrix::identity(dim);
    let diff = match sum.minus(ar, &identity) {
        Some(d) => d,
        None => vstd::pervasive::unreached(),
    };
    let norm = max_norm(ar, &diff);
    assert(is_running_sum(ar, mats@, dim as nat, mats@.len(), sum@) && is_matrix_difference(
        ar,
        sum@,
        identity_grid(dim as nat),
        diff@,
    ) && is_max_norm(ar, diff@, norm));
    assert(is_completeness_norm(ar, mats@, dim as nat, norm));
    if !norm.less_or_equal(Real::from_bits(VALIDATION_TOL_BITS)) {
        let fault = if projective {
            QuantumFault::ProjectorsIncomplete { measurement: name.clone(), deviation: norm }
        } else {
            QuantumFault::EffectsIncomplete { measurement: name.clone(), deviation: norm }
        };
        Err(EngineError::quantum_error(fault))
    } else {
        Ok(())
    }
}

/// Validates a measurement: every projector Hermitian and idempotent, or
/// every effect positive semi-definite, and their sum the identity, all
/// within the tolerance. The first violation is the error.
pub fn validate_measurement<A: Arithmetic>(
    ar: &A,
    constants: &SymbolTable<Real>,
    name: &String,
    spec: &MeasurementSpec,
) -> (r: Result<(), EngineError>)
    ensures
        is_measurement_validated(ar, constants@, *name, *spec, r),
{
    let (lits, projective) = match spec {
        MeasurementSpec::Projective { projectors } => (projectors, true),
        MeasurementSpec::POVM { effects } => (effects, false),
    };
    assert(measurement_parts(*spec) == (lits@, projective));
    let mut mats: Vec<Matrix> = Vec::new();
    let mut i: usize = 0;
    while i < lits.len()
        invariant
            i <= lits@.len(),
            mats@.len() == i,
            measurement_parts(*spec) == (lits@, projective),
            forall|k: int| 0 <= k < i ==> (#[trigger] mats@[k]).wf(),
            operators_pass(ar, constants@, lits@, projective, *name, mats@),
        decreases lits@.len() - i,
    {
        let checked = match evaluate_matrix_literal(ar, constants, &lits[i]) {
            Err(e) => Err(e),
            Ok(m) => {
                let ghost value = m;
                let verdict = if projective {
                    check_projector(ar, m, i, name)
                } else {
                    check_effect(ar, m, i, name)
                };
                assert(is_literal_value(ar, constants@, lits@[i as int], value@) && value.wf()
                    && if projective {
                    is_projector_verdict(ar, value, i, *name, verdict)
                } else {
                    is_effect_verdict(ar, value, i, *name, verdict)
                });
                verdict
            },
        };
        assert(is_operator_check(
            ar,
            constants@,
            lits@[i as int],
            projective,
            i,
            *name,
            checked,
        ));
        match checked {
            Ok(m) => {
                let ghost before = mats@;
                mats.push(m);
                assert forall|k: int| 0 <= k < mats@.len() implies #[trigger] is_operator_check(
                    ar,
                    constants@,
                    lits@[k],
                    projective,
                    k as usize,
                    *name,
                    Ok(mats@[k]),
                ) by {
                    if k < i {
                        assert(mats@[k] == before[k]);
                    }
                }
            },
            Err(e) => {
                assert(operators_pass(ar, constants@, lits@, projective, *name, mats@)
                    && mats@.len() < lits@.len() && is_operator_check(
                    ar,
                    constants@,
                    lits@[mats@.len() as int],
                    projective,
                    mats@.len() as usize,
                    *name,
                    Err(e),
                ));
                return Err(e);
            },
        }
        i += 1;
    }
    let r = check_completeness(ar, &mats, projective, name);
    assert(operators_pass(ar, constants@, lits@, projective, *name, mats@) && mats@.len()
        == lits@.len() && is_completeness_check(ar, mats@, projective, *name, r));
    r
}

/// `norm_sqr` is the sum of the squared moduli of `values`, added up from
/// zero in their order.
pub open spec fn is_norm_squared<A: Arithmetic>(
    ar: &A,
    values: Seq<Complex>,
    norm_sqr: Real,
) -> bool {
    exists|squares: Seq<Real>| #[trigger]
        is_real_total(ar, squares, norm_sqr) && squares.len() == values.len() && forall|k: int|
            0 <= k < values.len() ==> #[trigger] is_norm_sqr(ar, values[k], squares[k])
}

/// What the normalization check gives for the elements of a ket: an error
/// that carries the squared norm where it differs from one by more than the
/// tolerance.
pub open spec fn is_ket_check<A: Arithmetic>(
    ar: &A,
    values: Seq<Complex>,
    r: Result<(), EngineError>,
) -> bool {
    exists|norm_sqr: Real, off: Real|
        #![trigger is_norm_squared(ar, values, norm_sqr), is_real_difference(ar, norm_sqr, Real { bits: ONE_BITS }, off)]
        is_norm_squared(ar, values, norm_sqr) && is_real_difference(
            ar,
            norm_sqr,
            Real { bits: ONE_BITS },
            off,
        ) && r == if !off.absolute().le(tolerance()) {
            Err::<(), EngineError>(
                EngineError::QuantumConstraintError(QuantumFault::KetNotNormalized { norm_sqr }),
            )
        } else {
            Ok::<(), EngineError>(())
        }
}

/// What the checks of a density matrix give: the error of the Hermiticity
/// check, else that of the positivity check, else what the check of the
/// trace against one gives.
pub open spec fn is_density_check<A: Arithmetic>(
    ar: &A,
    m: Matrix,
    r: Result<(), EngineError>,
) -> bool {
    exists|h: Result<bool, EngineError>| #[trigger]
        is_hermitian_check(ar, m, h) && match h {
            Err(e) => r == Err::<(), EngineError>(e),
            Ok(_) => exists|p: Result<bool, EngineError>| #[trigger]
                is_psd_check(ar, m, p) && match p {
                    Err(e) => r == Err::<(), EngineError>(e),
                    Ok(_) => is_trace_check(ar, m, Real { bits: ONE_BITS }, r),
                },
        }
}

/// `r` is what the validation of an experiment gives: nothing to check
/// without an initial state; for a ket the error of its literal or the
/// normalization check; for a density matrix the error of its literal or
/// the checks of a density matrix.
pub open spec fn is_experiment_validated<A: Arithmetic>(
    ar: &A,
    constants: Map<Seq<char>, Real>,
    body: ExperimentBody,
    r: Result<(), EngineError>,
) -> bool {
    match body.init {
        None => r == Ok::<(), EngineError>(()),
        Some(StateSpec::Ket(vec)) => match row_fault(constants, vec.elements@, 0) {
            Some(e) => r == Err::<(), EngineError>(e),
            None => exists|values: Seq<Complex>| #[trigger]
                is_row_value(ar, constants, vec.elements@, values) && is_ket_check(ar, values, r),
        },
        Some(StateSpec::Rho(mat)) => match literal_fault(constants, mat) {
            Some(e) => r == Err::<(), EngineError>(e),
            None => exists|m: Matrix| #[trigger]
                is_literal_value(ar, constants, mat, m@) && m.wf() && is_density_check(ar, m, r),
        },
    }
}

/// Checks that a ket is normalized within the tolerance.
pub fn check_ket<A: Arithmetic>(ar: &A, ket: &Vec<Complex>) -> (r: Result<(), EngineError>)
    ensures
        is_ket_check(ar, ket@, r),
{
    let mut squares: Vec<Real> = Vec::new();
    let mut k: usize = 0;
    while k < ket.len()
        invariant
            k <= ket@.len(),
            squares@.len() == k,
            forall|p: int| 0 <= p < k ==> #[trigger] is_norm_sqr(ar, ket@[p], squares@[p]),
        decreases ket@.len() - k,
    {
        squares.push(ar.norm_sqr(ket[k]));
        k += 1;
    }
    let norm_sqr = real_total(ar, &squares);
    assert(is_real_total(ar, squares@, norm_sqr) && squares@.len() == ket@.len());
    assert(is_norm_squared(ar, ket@, norm_sqr));
    let off = ar.sub_real(norm_sqr, Real::one());
    assert(is_norm_squared(ar, ket@, norm_sqr) && is_real_difference(
        ar,
        norm_sqr,
        Real { bits: ONE_BITS },
        off,
    ));
    if !off.abs().less_or_equal(Real::from_bits(VALIDATION_TOL_BITS)) {
        Err(EngineError::quantum_error(QuantumFault::KetNotNormalized { norm_sqr }))
    } else {
        Ok(())
    }
}

/// Checks that a matrix is a density matrix: Hermitian, positive
/// semi-definite and of trace one, within the tolerance.
pub fn check_density<A: Arithmetic>(ar: &A, m: &Matrix) -> (r: Result<(), EngineError>)
    requires
        m.wf(),
    ensures
        is_density_check(ar, *m, r),
{
    let h = check_hermitian(ar, m);
    match h {
        Err(e) => {
            return Err(e);
        },
        Ok(_) => {},
    }
    let p = check_psd(ar, m);
    match p {
        Err(e) => {
            return Err(e);
        },
        Ok(_) => {},
    }
    check_trace(ar, m, Real::one())
}

/// Validates the initial state of an experiment: a ket must be normalized,
/// a density matrix Hermitian, positive semi-definite and of trace one.
pub fn validate_experiment<A: Arithmetic>(
    ar: &A,
    constants: &SymbolTable<Real>,
    body: &ExperimentBody,
) -> (r: Result<(), EngineError>)
    ensures
        is_experiment_validated(ar, constants@, *body, r),
{
    match &body.init {
        None => Ok(()),
        Some(StateSpec::Ket(vec)) => {
            let ket = match evaluate_vector_literal(ar, constants, vec) {
                Ok(k) => k,
                Err(e) => {
                    return Err(e);
                },
            };
            let r = check_ket(ar, &ket);
            assert(is_row_value(ar, constants@, vec.elements@, ket@) && is_ket_check(
                ar,
                ket@,
                r,
            ));
            r
        },
        Some(StateSpec::Rho(mat)) => {
            let rho = match evaluate_matrix_literal(ar, constants, mat) {
                Ok(m) => m,
                Err(e) => {
                    return Err(e);
                },
            };
            let r = check_density(ar, &rho);
            assert(is_literal_value(ar, constants@, *mat, rho@) && rho.wf() && is_density_check(
                ar,
                rho,
                r,
            ));
            r
        },
    }
}

/// What validation has recorded of the operators of a program.
pub struct ValidationResults {
    /// The operators confirmed Hermitian.
    pub hermitian_operators: SymbolTable<bool>,
    /// The operators confirmed positive semi-definite.
    pub psd_operators: SymbolTable<bool>,
    /// The traces that were computed.
    pub trace_values: SymbolTable<Real>,
}

/// A program that passed validation, with what validation recorded.
pub struct ValidatedAst {
    pub typed_ast: TypedAst,
    pub validation_results: ValidationResults,
}

/// The validator; holds the constants and matrices declared so far.
pub struct QuantumValidator {
    pub constants: SymbolTable<Real>,
    pub matrices: SymbolTable<Matrix>,
}

/// What the validator knows at a point of the program.
pub struct Knowledge {
    pub constants: Map<Seq<char>, Real>,
    pub matrices: Map<Seq<char>, Matrix>,
    pub hermitian: Map<Seq<char>, bool>,
}

/// The Pauli matrix `σ_x`.
pub open spec fn sigma_x_grid() -> Seq<Seq<Complex>> {
    seq![
        seq![embed(Real { bits: 0 }), embed(Real { bits: ONE_BITS })],
        seq![embed(Real { bits: ONE_BITS }), embed(Real { bits: 0 })],
    ]
}

/// The Pauli matrix `σ_y`.
pub open spec fn sigma_y_grid() -> Seq<Seq<Complex>> {
    seq![
        seq![
            embed(Real { bits: 0 }),
            Complex { re: Real { bits: 0 }, im: Real { bits: crate::ode::MINUS_ONE_BITS } },
        ],
        seq![
            Complex { re: Real { bits: 0 }, im: Real { bits: ONE_BITS } },
            embed(Real { bits: 0 }),
        ],
    ]
}

/// The Pauli matrix `σ_z`.
pub open spec fn sigma_z_grid() -> Seq<Seq<Complex>> {
    seq![
        seq![embed(Real { bits: ONE_BITS }), embed(Real { bits: 0 })],
        seq![embed(Real { bits: 0 }), embed(Real { bits: crate::ode::MINUS_ONE_BITS })],
    ]
}

/// The deviation that a failed Hermiticity check reports.
pub open spec fn deviation_of(e: EngineError) -> Option<Real> {
    match e {
        EngineError::NotHermitian { deviation } => Some(deviation),
        _ => None,
    }
}

/// What the validation of a Hamiltonian with matrix `m` gives: an error
/// that names it, with the deviation where the Hermiticity check measured
/// one and without where the matrix is not square; and else the matrix
/// recorded under the name as a Hermitian operator.
pub open spec fn is_hamiltonian_verdict<A: Arithmetic>(
    ar: &A,
    m: Matrix,
    name: String,
    before: Knowledge,
    after: Knowledge,
    r: Result<(), EngineError>,
) -> bool {
    exists|h: Result<bool, EngineError>| #[trigger]
        is_hermitian_check(ar, m, h) && match h {
            Err(e) => r == Err::<(), EngineError>(
                EngineError::QuantumConstraintError(
                    QuantumFault::HamiltonianNotHermitian { name, deviation: deviation_of(e) },
                ),
            ),
            Ok(false) => r == Err::<(), EngineError>(
                EngineError::QuantumConstraintError(
                    QuantumFault::HamiltonianNotHermitian { name, deviation: None },
                ),
            ),
            Ok(true) => r == Ok::<(), EngineError>(()) && after == (Knowledge {
                constants: before.constants,
                matrices: before.matrices.insert(name@, m),
                hermitian: before.hermitian.insert(name@, true),
            }),
        }
}

/// `r` is what the validation of one statement gives, and `after` what the
/// validator knows once it has passed:
/// a constant is recorded; a matrix is recorded, and a literal that
/// cannot be evaluated is its error; the expression of a Hamiltonian is
/// evaluated, with the error that this gives, and its matrix must be
/// Hermitian and is then recorded; measurements and experiments are checked;
/// other statements pass.
pub open spec fn is_statement_validated<A: Arithmetic>(
    ar: &A,
    before: Knowledge,
    stmt: Statement,
    after: Knowledge,
    r: Result<(), EngineError>,
) -> bool {
    match stmt {
        Statement::ConstDecl { name, value } => r == Ok::<(), EngineError>(()) && after == (
        Knowledge {
            constants: before.constants.insert(name@, value),
            matrices: before.matrices,
            hermitian: before.hermitian,
        }),
        Statement::MatrixDecl { name, value } => match literal_fault(before.constants, value) {
            Some(e) => r == Err::<(), EngineError>(e) && after == before,
            None => r == Ok::<(), EngineError>(()) && exists|m: Matrix| #[trigger]
                is_literal_value(ar, before.constants, value, m@) && m.wf() && m.nrows()
                    == value.rows@.len() && m.ncols() == value.rows@[0]@.len() && after == (
                Knowledge {
                    constants: before.constants,
                    matrices: before.matrices.insert(name@, m),
                    hermitian: before.hermitian,
                }),
        },
        Statement::HamiltonianDef { name, expr, .. } => match matrix_expr_shape(
            before.constants,
            before.matrices,
            *expr,
        ) {
            Err(e) => r == Err::<(), EngineError>(e) && after == before,
            Ok(shape) => exists|m: Matrix| #[trigger]
                is_matrix_value(ar, before.constants, before.matrices, *expr, m.ncols(), m@)
                    && m.wf() && shape == (m.nrows(), m.ncols()) && is_hamiltonian_verdict(
                    ar,
                    m,
                    name,
                    before,
                    after,
                    r,
                ),
        },
        Statement::MeasurementDef { name, spec } => is_measurement_validated(
            ar,
            before.constants,
            name,
            spec,
            r,
        ) && after == before,
        Statement::Experiment { body, .. } => is_experiment_validated(
            ar,
            before.constants,
            body,
            r,
        ) && after == before,
        _ => r == Ok::<(), EngineError>(()) && after == before,
    }
}

/// The first `count` statements pass validation, and `state` is what the
/// validator knows after them, having started from `init`.
pub open spec fn is_validated_upto<A: Arithmetic>(
    ar: &A,
    init: Knowledge,
    stmts: Seq<Statement>,
    count: nat,
    state: Knowledge,
) -> bool
    decreases count,
{
    if count == 0 {
        state == init
    } else {
        exists|mid: Knowledge|
            is_validated_upto(ar, init, stmts, (count - 1) as nat, mid)
                && #[trigger] is_statement_validated(
                ar,
                mid,
                stmts[count - 1],
                state,
                Ok(()),
            )
    }
}

/// Statement `k` is the first that fails validation, with error `e`.
pub open spec fn fails_at<A: Arithmetic>(
    ar: &A,
    init: Knowledge,
    stmts: Seq<Statement>,
    k: int,
    e: EngineError,
) -> bool {
    0 <= k < stmts.len() && exists|mid: Knowledge, after: Knowledge|
        is_validated_upto(ar, init, stmts, k as nat, mid) && #[trigger] is_statement_validated(
            ar,
            mid,
            stmts[k],
            after,
            Err(e),
        )
}

impl QuantumValidator {
    /// Every matrix that the validator holds is well-formed.
    pub open spec fn wf(&self) -> bool {
        all_well_formed(self.matrices.entries@)
    }

    /// What the validator knows, together with the operators `hermitian`
    /// that were confirmed Hermitian.
    pub open spec fn knowledge(&self, hermitian: Map<Seq<char>, bool>) -> Knowledge {
        Knowledge { constants: self.constants@, matrices: self.matrices@, hermitian }
    }

    /// A validator that knows the Pauli matrices and the identity of
    /// dimension 2, and no constants.
    pub fn new() -> (v: QuantumValidator)
        ensures
            v.wf(),
            v.constants@ == Map::<Seq<char>, Real>::empty(),
            v.matrices@.dom() == set!["sigma_x"@, "sigma_y"@, "sigma_z"@, "identity"@],
            v.matrices@["sigma_x"@]@ == sigma_x_grid(),
            v.matrices@["sigma_y"@]@ == sigma_y_grid(),
            v.matrices@["sigma_z"@]@ == sigma_z_grid(),
            v.matrices@["identity"@]@ == identity_grid(2),
    {
        let zero = Complex::zero();
        let one = Complex::one();
        let minus_one = Complex::from_real(Real::from_bits(crate::ode::MINUS_ONE_BITS));
        let i = Complex::new(Real::zero(), Real::one());
        let minus_i = Complex::new(Real::zero(), Real::from_bits(crate::ode::MINUS_ONE_BITS));
        let sigma_x = Matrix { cols: 2, data: vec![vec![zero, one], vec![one, zero]] };
        let sigma_y = Matrix { cols: 2, data: vec![vec![zero, minus_i], vec![i, zero]] };
        let sigma_z = Matrix { cols: 2, data: vec![vec![one, zero], vec![zero, minus_one]] };
        let identity = Matrix::identity(2);
        assert(sigma_x@ =~~= sigma_x_grid());
        assert(sigma_y@ =~~= sigma_y_grid());
        assert(sigma_z@ =~~= sigma_z_grid());
        let mut matrices: SymbolTable<Matrix> = SymbolTable::new();
        matrices.insert("sigma_x".to_string(), sigma_x);
        matrices.insert("sigma_y".to_string(), sigma_y);
        matrices.insert("sigma_z".to_string(), sigma_z);
        matrices.insert("identity".to_string(), identity);
        proof {
            reveal_strlit("sigma_x");
            reveal_strlit("sigma_y");
            reveal_strlit("sigma_z");
            reveal_strlit("identity");
            assert("sigma_x"@ != "sigma_y"@) by {
                assert("sigma_x"@[6] != "sigma_y"@[6]);
            }
            assert("sigma_x"@ != "sigma_z"@) by {
                assert("sigma_x"@[6] != "sigma_z"@[6]);
            }
            assert("sigma_y"@ != "sigma_z"@) by {
                assert("sigma_y"@[6] != "sigma_z"@[6]);
            }
            assert("sigma_x"@ != "identity"@) by {
                assert("sigma_x"@[0] != "identity"@[0]);
            }
            assert("sigma_y"@ != "identity"@) by {
                assert("sigma_y"@[0] != "identity"@[0]);
            }
            assert("sigma_z"@ != "identity"@) by {
                assert("sigma_z"@[0] != "identity"@[0]);
            }
            assert(matrices@.dom() =~= set!["sigma_x"@, "sigma_y"@, "sigma_z"@, "identity"@]);
        }
        QuantumValidator { constants: SymbolTable::new(), matrices }
    }

    /// Validates one statement and records what it declares.
    pub fn validate_statement<A: Arithmetic>(
        &mut self,
        ar: &A,
        stmt: &Statement,
        results: &mut ValidationResults,
    ) -> (r: Result<(), EngineError>)
        requires
            old(self).wf(),
        ensures
            final(self).wf(),
            is_statement_validated(
                ar,
                old(self).knowledge(old(results).hermitian_operators@),
                *stmt,
                final(self).knowledge(final(results).hermitian_operators@),
                r,
            ) || (r is Err && exists|after: Knowledge| #[trigger]
                is_statement_validated(
                    ar,
                    old(self).knowledge(old(results).hermitian_operators@),
                    *stmt,
                    after,
                    r,
                )),
            final(results).psd_operators@ == old(results).psd_operators@,
            final(results).trace_values@ == old(results).trace_values@,
    {
        let ghost before = self.knowledge(results.hermitian_operators@);
        match stmt {
            Statement::ConstDecl { name, value } => {
                self.constants.insert(name.clone(), *value);
                assert(self.knowledge(results.hermitian_operators@) == (Knowledge {
                    constants: before.constants.insert(name@, *value),
                    matrices: before.matrices,
                    hermitian: before.hermitian,
                }));
                Ok(())
            },
            Statement::MatrixDecl { name, value } => {
                match evaluate_matrix_literal(ar, &self.constants, value) {
                    Ok(m) => {
                        let ghost held = m;
                        self.matrices.insert(name.clone(), m);
                        assert(is_literal_value(ar, before.constants, *value, held@) && held.wf()
                            && self.knowledge(results.hermitian_operators@) == (Knowledge {
                            constants: before.constants,
                            matrices: before.matrices.insert(name@, held),
                            hermitian: before.hermitian,
                        }));
                    },
                    Err(e) => {
                        return Err(e);
                    },
                }
                Ok(())
            },
            Statement::HamiltonianDef { name, expr, .. } => {
                let m = match evaluate_expr_to_matrix(ar, &self.constants, &self.matrices, expr) {
                    Ok(m) => m,
                    Err(e) => {
                        return Err(e);
                    },
                };
                let h = check_hermitian(ar, &m);
                let ghost held = m;
                let ghost verdict = h;
                let r = match h {
                    Err(e) => {
                        let deviation = match e {
                            EngineError::NotHermitian { deviation } => Some(deviation),
                            _ => None,
                        };
                        Err(
                            EngineError::quantum_error(
                                QuantumFault::HamiltonianNotHermitian {
                                    name: name.clone(),
                                    deviation,
                                },
                            ),
                        )
                    },
                    Ok(false) => Err(
                        EngineError::quantum_error(
                            QuantumFault::HamiltonianNotHermitian {
                                name: name.clone(),
                                deviation: None,
                            },
                        ),
                    ),
                    Ok(true) => {
                        results.hermitian_operators.insert(name.clone(), true);
                        self.matrices.insert(name.clone(), m);
                        Ok(())
                    },
                };
                let ghost after = self.knowledge(results.hermitian_operators@);
                assert(is_hermitian_check(ar, held, verdict));
                assert(is_hamiltonian_verdict(ar, held, *name, before, after, r));
                assert(is_matrix_value(
                    ar,
                    before.constants,
                    before.matrices,
                    **expr,
                    held.ncols(),
                    held@,
                ) && held.wf() && is_hamiltonian_verdict(ar, held, *name, before, after, r));
                r
            },
            Statement::MeasurementDef { name, spec } => validate_measurement(
                ar,
                &self.constants,
                name,
                spec,
            ),
            Statement::Experiment { body, .. } => validate_experiment(ar, &self.constants, body),
            _ => Ok(()),
        }
    }

    /// Validates the statements of a program in their order. The first
    /// violation ends the validation and is the error; a program that passes
    /// is returned with the operators that were confirmed Hermitian. No
    /// declaration asks for a positivity or trace check by name, so these
    /// two records are empty.
    pub fn validate<A: Arithmetic>(&mut self, ar: &A, typed_ast: TypedAst) -> (r: Result<
        ValidatedAst,
        EngineError,
    >)
        requires
            old(self).wf(),
        ensures
            final(self).wf(),
            match r {
                Ok(v) => v.typed_ast == typed_ast && is_validated_upto(
                    ar,
                    old(self).knowledge(Map::empty()),
                    typed_ast.ast.statements@,
                    typed_ast.ast.statements@.len(),
                    final(self).knowledge(v.validation_results.hermitian_operators@),
                ) && v.validation_results.psd_operators@ == Map::<Seq<char>, bool>::empty()
                    && v.validation_results.trace_values@ == Map::<Seq<char>, Real>::empty(),
                Err(e) => exists|k: int| #[trigger]
                    fails_at(
                        ar,
                        old(self).knowledge(Map::empty()),
                        typed_ast.ast.statements@,
                        k,
                        e,
                    ),
            },
    {
        let mut results = ValidationResults {
            hermitian_operators: SymbolTable::new(),
            psd_operators: SymbolTable::new(),
            trace_values: SymbolTable::new(),
        };
        let ghost init = self.knowledge(Map::empty());
        let ghost stmts = typed_ast.ast.statements@;
        let mut i: usize = 0;
        while i < typed_ast.ast.statements.len()
            invariant
                i <= stmts.len(),
                stmts == typed_ast.ast.statements@,
                init == old(self).knowledge(Map::empty()),
                self.wf(),
                results.psd_operators@ == Map::<Seq<char>, bool>::empty(),
                results.trace_values@ == Map::<Seq<char>, Real>::empty(),
                is_validated_upto(
                    ar,
                    init,
                    stmts,
                    i as nat,
                    self.knowledge(results.hermitian_operators@),
                ),
            decreases stmts.len() - i,
        {
            let ghost mid = self.knowledge(results.hermitian_operators@);
            let r = self.validate_statement(ar, &typed_ast.ast.statements[i], &mut results);
            match r {
                Ok(()) => {
                    proof {
                        let c: nat = (i + 1) as nat;
                        let state = self.knowledge(results.hermitian_operators@);
                        assert(stmts[c - 1] == stmts[i as int]);
                        assert(is_validated_upto(ar, init, stmts, (c - 1) as nat, mid)
                            && is_statement_validated(ar, mid, stmts[c - 1], state, Ok(())));
                        assert(is_validated_upto(ar, init, stmts, c, state));
                    }
                },
                Err(e) => {
                    proof {
                        let after = choose|after: Knowledge| #[trigger]
                            is_statement_validated(ar, mid, stmts[i as int], after, r);
                        assert(is_validated_upto(ar, init, stmts, i as nat, mid)
                            && is_statement_validated(ar, mid, stmts[i as int], after, Err(e)));
                        assert(fails_at(ar, init, stmts, i as int, e));
                    }
                    return Err(e);
                },
            }
            i += 1;
        }
        Ok(ValidatedAst { typed_ast, validation_results: results })
    }
}

} // verus!
