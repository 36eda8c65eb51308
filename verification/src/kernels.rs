//! The dense kernels: conjugate transpose, trace, commutator, tensor product,
//! matrix exponential, application of a unitary, expectation values and
//! measurement probabilities.

use crate::arith::{
    complex_zero, is_product, is_real_exp, is_real_quotient, is_real_total, is_sum,
    is_total, real_total, total, Arithmetic,
};
use crate::error::{EngineError, ExecutionFault, TypeFault};
use crate::matrix::{
    dagger_of, diagonal, is_matrix_difference, is_matrix_product,
    is_matrix_vector_product, rectangular, Matrix,
};
use crate::scalar::{Complex, Real};
use crate::typechecker::Shape;
use vstd::arithmetic::div_mod::{lemma_fundamental_div_mod, lemma_fundamental_div_mod_converse};
use vstd::prelude::*;

verus! {

/// Element `(i * inner_rows + k, j * inner_cols + l)` of a grid: where the
/// tensor product puts `A[i,j] * B[k,l]`.
pub open spec fn tensor_entry(
    grid: Seq<Seq<Complex>>,
    inner_rows: nat,
    inner_cols: nat,
    i: int,
    j: int,
    k: int,
    l: int,
) -> Complex {
    grid[i * inner_rows + k][j * inner_cols + l]
}

/// `c` is the commutator `a b - b a` of two square matrices of dimension `n`.
pub open spec fn is_commutator<A: Arithmetic>(
    ar: &A,
    a: Seq<Seq<Complex>>,
    b: Seq<Seq<Complex>>,
    n: nat,
    c: Seq<Seq<Complex>>,
) -> bool {
    exists|ab: Seq<Seq<Complex>>, ba: Seq<Seq<Complex>>|
        is_matrix_product(ar, a, b, n, ab) && is_matrix_product(ar, b, a, n, ba)
            && #[trigger] is_matrix_difference(ar, ab, ba, c)
}

/// `r` is `u rho u†`, computed as `(u rho) u†`; `u` has `n` rows and `m`
/// columns, `rho` is `m` by `m`.
pub open spec fn is_conjugation<A: Arithmetic>(
    ar: &A,
    u: Seq<Seq<Complex>>,
    rho: Seq<Seq<Complex>>,
    m: nat,
    r: Seq<Seq<Complex>>,
) -> bool {
    exists|half: Seq<Seq<Complex>>|
        is_matrix_product(ar, u, rho, m, half) && #[trigger] is_matrix_product(
            ar,
            half,
            dagger_of(u, m),
            u.len(),
            r,
        )
}

/// `t` is the trace of the product `observable rho`, where `rho` has `width`
/// columns.
pub open spec fn is_expectation<A: Arithmetic>(
    ar: &A,
    observable: Seq<Seq<Complex>>,
    rho: Seq<Seq<Complex>>,
    width: nat,
    t: Complex,
) -> bool {
    exists|product: Seq<Seq<Complex>>| #[trigger]
        is_matrix_product(ar, observable, rho, width, product) && is_total(
            ar,
            diagonal(product),
            t,
        )
}

/// `value` is the real part of `Tr(projector rho)`, or 0 where that is
/// negative or not a number.
pub open spec fn is_floored_expectation<A: Arithmetic>(
    ar: &A,
    projector: Seq<Seq<Complex>>,
    rho: Seq<Seq<Complex>>,
    width: nat,
    value: Real,
) -> bool {
    exists|t: Complex| #[trigger]
        is_expectation(ar, projector, rho, width, t) && value == t.re.larger(Real { bits: 0 })
}

/// The probabilities of a projective measurement before they are scaled:
/// the real part of each expectation value, and 0 where that is negative or
/// not a number.
pub open spec fn is_raw_probabilities<A: Arithmetic>(
    ar: &A,
    projectors: Seq<Matrix>,
    rho: Seq<Seq<Complex>>,
    width: nat,
    raw: Seq<Real>,
) -> bool {
    &&& raw.len() == projectors.len()
    &&& forall|k: int|
        0 <= k < raw.len() ==> #[trigger] is_floored_expectation(
            ar,
            projectors[k]@,
            rho,
            width,
            raw[k],
        )
}

/// The probabilities of a projective measurement: the raw ones divided by
/// their sum where that sum is positive, and the raw ones as they are where
/// it is not.
pub open spec fn is_probabilities<A: Arithmetic>(
    ar: &A,
    projectors: Seq<Matrix>,
    rho: Seq<Seq<Complex>>,
    width: nat,
    probabilities: Seq<Real>,
) -> bool {
    exists|raw: Seq<Real>, sum: Real|
        #![trigger is_raw_probabilities(ar, projectors, rho, width, raw), is_real_total(ar, raw, sum)]
        is_raw_probabilities(ar, projectors, rho, width, raw) && is_real_total(ar, raw, sum)
            && probabilities.len() == raw.len() && if (Real { bits: 0 }).lt(sum) {
            forall|k: int|
                0 <= k < raw.len() ==> #[trigger] is_real_quotient(
                    ar,
                    raw[k],
                    sum,
                    probabilities[k],
                )
        } else {
            probabilities == raw
        }
}

/// Whether a projector can be measured on a state of dimension `n`: it is
/// `n` by `n`.
pub open spec fn fits(projector: Matrix, n: nat) -> bool {
    projector.nrows() == n && projector.ncols() == n
}

/// The first projector at or after `from` that does not fit the state.
pub open spec fn first_misfit(projectors: Seq<Matrix>, n: nat, from: int) -> Option<int>
    decreases projectors.len() - from,
{
    if from < 0 || from >= projectors.len() {
        None
    } else if !fits(projectors[from], n) {
        Some(from)
    } else {
        first_misfit(projectors, n, from + 1)
    }
}

/// The error that [`expectation`] gives for an observable and a state whose
/// shapes do not fit, if they do not.
pub open spec fn expectation_fault(observable: Matrix, rho: Matrix) -> Option<EngineError> {
    if observable.ncols() != rho.nrows() {
        Some(EngineError::DimensionMismatch { expected: observable.shape(), actual: rho.shape() })
    } else if observable.nrows() != rho.ncols() {
        Some(
            EngineError::DimensionMismatch {
                expected: Shape::Matrix(
                    observable.nrows() as usize,
                    observable.nrows() as usize,
                ),
                actual: Shape::Matrix(observable.nrows() as usize, rho.cols),
            },
        )
    } else {
        None
    }
}

/// `q` is `(x * w) * conj(y)`.
pub open spec fn is_weighted_term<A: Arithmetic>(
    ar: &A,
    x: Complex,
    w: Complex,
    y: Complex,
    q: Complex,
) -> bool {
    exists|p: Complex| is_product(ar, x, w, p) && #[trigger] is_product(ar, p, y.conjugate(), q)
}

/// `r` is `sum over k of (left[k] * weights[k]) * conj(right[k])` over the
/// first `n` places, added up from zero, first place first.
pub open spec fn is_weighted_dot<A: Arithmetic>(
    ar: &A,
    left: Seq<Complex>,
    weights: Seq<Complex>,
    right: Seq<Complex>,
    n: nat,
    r: Complex,
) -> bool
    decreases n,
{
    if n == 0 {
        r == complex_zero()
    } else {
        exists|acc: Complex, q: Complex|
            is_weighted_dot(ar, left, weights, right, (n - 1) as nat, acc) && is_weighted_term(
                ar,
                left[n - 1],
                weights[n - 1],
                right[n - 1],
                q,
            ) && #[trigger] is_sum(ar, acc, q, r)
    }
}

/// `weights` are the exponentials of `values`, as complex numbers with
/// imaginary part 0.
pub open spec fn is_exponentials<A: Arithmetic>(
    ar: &A,
    values: Seq<Real>,
    weights: Seq<Complex>,
) -> bool {
    &&& weights.len() == values.len()
    &&& forall|k: int|
        0 <= k < weights.len() ==> #[trigger] is_real_exp(ar, values[k], weights[k].re)
    &&& forall|k: int| 0 <= k < weights.len() ==> (#[trigger] weights[k]).im == (Real { bits: 0 })
}

/// `r` is `V diag(exp(values)) V†` for the eigenvalues `values` and the
/// matrix `vectors` of eigenvectors, of dimension `n`.
pub open spec fn is_spectral_exponential<A: Arithmetic>(
    ar: &A,
    values: Seq<Real>,
    vectors: Seq<Seq<Complex>>,
    n: nat,
    r: Seq<Seq<Complex>>,
) -> bool {
    exists|weights: Seq<Complex>| #[trigger]
        is_exponentials(ar, values, weights) && r.len() == n && rectangular(r, n) && forall|
            i: int,
            j: int,
        |
            0 <= i < n && 0 <= j < n ==> #[trigger] is_weighted_dot(
                ar,
                vectors[i],
                weights,
                vectors[j],
                n,
                r[i][j],
            )
}

/// What the eigensolver gave for `rows`: `Some` of eigenvalues and
/// eigenvectors, or `None`.
pub open spec fn is_decomposition<A: Arithmetic>(
    ar: &A,
    rows: Vec<Vec<Complex>>,
    r: Option<(Vec<Real>, Vec<Vec<Complex>>)>,
) -> bool {
    call_ensures(A::eigh, (ar, &rows), r)
}

/// Whether a decomposition has the sizes of dimension `n`: `n` eigenvalues
/// and an `n` by `n` matrix of eigenvectors.
pub open spec fn decomposition_fits(r: Option<(Vec<Real>, Vec<Vec<Complex>>)>, n: nat) -> bool {
    match r {
        Some((values, vectors)) => values@.len() == n && vectors@.len() == n && forall|i: int|
            0 <= i < n ==> (#[trigger] vectors@[i])@.len() == n,
        None => false,
    }
}

/// The rows of a list of vectors as a grid.
pub open spec fn grid_of(rows: Vec<Vec<Complex>>) -> Seq<Seq<Complex>> {
    Seq::new(rows@.len(), |i: int| rows@[i]@)
}

/// What [`matrix_exp`] gives for a square matrix: with the decomposition `d`
/// that the eigensolver gave, the spectral exponential where `d` has the
/// right sizes, and an execution error where it has not.
pub open spec fn is_matrix_exponential<A: Arithmetic>(
    ar: &A,
    mat: Matrix,
    r: Result<Matrix, EngineError>,
) -> bool {
    exists|d: Option<(Vec<Real>, Vec<Vec<Complex>>)>| #[trigger]
        is_decomposition(ar, mat.data, d) && if decomposition_fits(d, mat.nrows()) {
            r is Ok && r->Ok_0.wf() && r->Ok_0.nrows() == mat.nrows() && r->Ok_0.ncols()
                == mat.nrows() && is_spectral_exponential(
                ar,
                d->Some_0.0@,
                grid_of(d->Some_0.1),
                mat.nrows(),
                r->Ok_0@,
            )
        } else {
            r == Err::<Matrix, EngineError>(
                EngineError::ExecutionError(ExecutionFault::DecompositionFailed),
            )
        }
}

/// What [`matrix_exp`] gives: a dimension mismatch for a matrix that is not
/// square, else what the eigendecomposition allows.
pub open spec fn is_exp_outcome<A: Arithmetic>(
    ar: &A,
    mat: Matrix,
    r: Result<Matrix, EngineError>,
) -> bool {
    &&& !mat.is_square() ==> r == Err::<Matrix, EngineError>(
        EngineError::DimensionMismatch {
            expected: Shape::Matrix(mat.nrows() as usize, mat.nrows() as usize),
            actual: mat.shape(),
        },
        )
    &&& mat.is_square() ==> is_matrix_exponential(ar, mat, r)
}

/// The exponential of a square matrix by eigendecomposition: with
/// eigenvalues `λ` and eigenvectors `V` from the eigensolver, the result is
/// `V diag(exp λ) V†`. A matrix that is not square is a dimension mismatch;
/// a decomposition that fails or has the wrong sizes is an execution error.
pub fn matrix_exp<A: Arithmetic>(ar: &A, mat: &Matrix) -> (r: Result<Matrix, EngineError>)
    requires
        mat.wf(),
    ensures
        is_exp_outcome(ar, *mat, r),
{
    let n: usize = mat.rows();
    if n != mat.cols() {
        return Err(EngineError::dimension_mismatch(Shape::Matrix(n, n), Shape::Matrix(n, mat.cols())));
    }
    let d = ar.eigh(&mat.data);
    assert(is_decomposition(ar, mat.data, d));
    let (values, vectors) = match &d {
        Some((values, vectors)) => (values, vectors),
        None => {
            return Err(EngineError::ExecutionError(ExecutionFault::DecompositionFailed));
        },
    };
    if values.len() != n || vectors.len() != n {
        return Err(EngineError::ExecutionError(ExecutionFault::DecompositionFailed));
    }
    let mut c: usize = 0;
    while c < n
        invariant
            c <= n,
            mat.is_square(),
            n == mat.nrows(),
            is_decomposition(ar, mat.data, d),
            d == Some((*values, *vectors)),
            values@.len() == n,
            vectors@.len() == n,
            forall|i: int| 0 <= i < c ==> (#[trigger] vectors@[i])@.len() == n,
        decreases n - c,
    {
        if vectors[c].len() != n {
            return Err(EngineError::ExecutionError(ExecutionFault::DecompositionFailed));
        }
        c += 1;
    }
    assert(decomposition_fits(d, n as nat));
    let mut weights: Vec<Complex> = Vec::new();
    let mut k: usize = 0;
    while k < n
        invariant
            k <= n,
            values@.len() == n,
            weights@.len() == k,
            forall|p: int| 0 <= p < k ==> #[trigger] is_real_exp(ar, values@[p], weights@[p].re),
            forall|p: int| 0 <= p < k ==> (#[trigger] weights@[p]).im == (Real { bits: 0 }),
        decreases n - k,
    {
        let e = ar.exp_real(values[k]);
        weights.push(Complex::from_real(e));
        k += 1;
    }
    assert(is_exponentials(ar, values@, weights@));
    let ghost grid = grid_of(*vectors);
    let mut data: Vec<Vec<Complex>> = Vec::new();
    let mut i: usize = 0;
    while i < n
        invariant
            i <= n,
            vectors@.len() == n,
            weights@.len() == n,
            grid == grid_of(*vectors),
            forall|p: int| 0 <= p < n ==> (#[trigger] vectors@[p])@.len() == n,
            data@.len() == i,
            forall|p: int| 0 <= p < i ==> (#[trigger] data@[p])@.len() == n,
            forall|p: int, q: int|
                0 <= p < i && 0 <= q < n ==> #[trigger] is_weighted_dot(
                    ar,
                    grid[p],
                    weights@,
                    grid[q],
                    n as nat,
                    data@[p]@[q],
                ),
        decreases n - i,
    {
        let mut row: Vec<Complex> = Vec::new();
        let mut j: usize = 0;
        while j < n
            invariant
                j <= n,
                i < n,
                vectors@.len() == n,
                weights@.len() == n,
                grid == grid_of(*vectors),
                forall|p: int| 0 <= p < n ==> (#[trigger] vectors@[p])@.len() == n,
                row@.len() == j,
                forall|q: int|
                    0 <= q < j ==> #[trigger] is_weighted_dot(
                        ar,
                        grid[i as int],
                        weights@,
                        grid[q],
                        n as nat,
                        row@[q],
                    ),
            decreases n - j,
        {
            let mut acc = Complex::zero();
            let mut k: usize = 0;
            while k < n
                invariant
                    k <= n,
                    i < n,
                    j < n,
                    vectors@.len() == n,
                    weights@.len() == n,
                    grid == grid_of(*vectors),
                    forall|p: int| 0 <= p < n ==> (#[trigger] vectors@[p])@.len() == n,
                    is_weighted_dot(ar, grid[i as int], weights@, grid[j as int], k as nat, acc),
                decreases n - k,
            {
                let p = ar.mul_complex(vectors[i][k], weights[k]);
                let q = ar.mul_complex(p, vectors[j][k].conj());
                let next = ar.add_complex(acc, q);
                proof {
                    assert(grid[i as int][k as int] == vectors@[i as int]@[k as int]);
                    assert(grid[j as int][k as int] == vectors@[j as int]@[k as int]);
                    assert(is_product(ar, grid[i as int][k as int], weights@[k as int], p)
                        && is_product(ar, p, grid[j as int][k as int].conjugate(), q));
                    assert(is_weighted_dot(
                        ar,
                        grid[i as int],
                        weights@,
                        grid[j as int],
                        k as nat,
                        acc,
                    ) && is_weighted_term(
                        ar,
                        grid[i as int][k as int],
                        weights@[k as int],
                        grid[j as int][k as int],
                        q,
                    ) && is_sum(ar, acc, q, next));
                }
                acc = next;
                k += 1;
            }
            row.push(acc);
            j += 1;
        }
        data.push(row);
        i += 1;
    }
    let m = Matrix { cols: n, data };
    assert(m.wf());
    assert(rectangular(m@, n as nat));
    assert(is_exponentials(ar, values@, weights@) && m@.len() == n && rectangular(m@, n as nat)
        && forall|i: int, j: int|
        0 <= i < n && 0 <= j < n ==> #[trigger] is_weighted_dot(
            ar,
            grid[i],
            weights@,
            grid[j],
            n as nat,
            m@[i][j],
        ));
    Ok(m)
}

/// What [`tensor_product`] gives: the matrix of all products `A[i,j] * B[k,l]`
/// with its indices interleaved, or an error where its dimensions do not fit
/// the machine's word.
pub open spec fn is_tensor_outcome<A: Arithmetic>(
    ar: &A,
    a: Matrix,
    b: Matrix,
    r: Result<Matrix, EngineError>,
) -> bool {
    match r {
        Ok(t) => {
            &&& t.wf()
            &&& t.nrows() == a.nrows() * b.nrows()
            &&& t.ncols() == a.ncols() * b.ncols()
            &&& forall|i: int, j: int, k: int, l: int|
                0 <= i < a.nrows() && 0 <= j < a.ncols() && 0 <= k < b.nrows() && 0 <= l
                    < b.ncols() ==> #[trigger] is_product(
                    ar,
                    a@[i][j],
                    b@[k][l],
                    tensor_entry(t@, b.nrows(), b.ncols(), i, j, k, l),
                )
        },
        Err(e) => e == EngineError::TypeError(TypeFault::DimensionOverflow) && (a.nrows()
            * b.nrows() > usize::MAX || a.ncols() * b.ncols() > usize::MAX),
    }
}

/// The tensor product: element `(i * rows_B + k, j * cols_B + l)` is
/// `A[i,j] * B[k,l]`. Fails only where a dimension of the result does not
/// fit in the machine's word.
pub fn tensor_product<A: Arithmetic>(ar: &A, a: &Matrix, b: &Matrix) -> (r: Result<
    Matrix,
    EngineError,
>)
    requires
        a.wf(),
        b.wf(),
    ensures
        is_tensor_outcome(ar, *a, *b, r),
{
    let na: usize = a.rows();
    let ma: usize = a.cols();
    let nb: usize = b.rows();
    let mb: usize = b.cols();
    let rows: usize = match na.checked_mul(nb) {
        Some(v) => v,
        None => {
            return Err(EngineError::type_error(TypeFault::DimensionOverflow));
        },
    };
    let cols: usize = match ma.checked_mul(mb) {
        Some(v) => v,
        None => {
            return Err(EngineError::type_error(TypeFault::DimensionOverflow));
        },
    };
    let mut data: Vec<Vec<Complex>> = Vec::new();
    let mut p: usize = 0;
    while p < rows
        invariant
            p <= rows,
            a.wf(),
            b.wf(),
            na == a.nrows(),
            ma == a.ncols(),
            nb == b.nrows(),
            mb == b.ncols(),
            rows == na * nb,
            cols == ma * mb,
            data@.len() == p,
            forall|x: int| 0 <= x < p ==> (#[trigger] data@[x])@.len() == cols,
            forall|x: int, y: int|
                0 <= x < p && 0 <= y < cols ==> is_product(
                    ar,
                    a@[x / (nb as int)][y / (mb as int)],
                    b@[x % (nb as int)][y % (mb as int)],
                    #[trigger] data@[x]@[y],
                ),
        decreases rows - p,
    {
        assert(nb > 0) by (nonlinear_arith)
            requires
                p < na * nb,
        ;
        let i: usize = p / nb;
        let k: usize = p % nb;
        proof {
            lemma_cell(p as int, na as int, nb as int);
        }
        let mut row: Vec<Complex> = Vec::new();
        let mut q: usize = 0;
        while q < cols
            invariant
                q <= cols,
                a.wf(),
                b.wf(),
                ma == a.ncols(),
                mb == b.ncols(),
                cols == ma * mb,
                i < a.nrows(),
                k < b.nrows(),
                row@.len() == q,
                forall|y: int|
                    0 <= y < q ==> is_product(
                        ar,
                        a@[i as int][y / (mb as int)],
                        b@[k as int][y % (mb as int)],
                        #[trigger] row@[y],
                    ),
            decreases cols - q,
        {
            assert(mb > 0) by (nonlinear_arith)
                requires
                    q < ma * mb,
            ;
            let j: usize = q / mb;
            let l: usize = q % mb;
            proof {
                lemma_cell(q as int, ma as int, mb as int);
            }
            row.push(ar.mul_complex(a.get(i, j), b.get(k, l)));
            q += 1;
        }
        data.push(row);
        p += 1;
    }
    let t = Matrix { cols, data };
    assert(t.wf());
    assert forall|i: int, j: int, k: int, l: int|
        0 <= i < a.nrows() && 0 <= j < a.ncols() && 0 <= k < b.nrows() && 0 <= l
            < b.ncols() implies #[trigger] is_product(
        ar,
        a@[i][j],
        b@[k][l],
        tensor_entry(t@, b.nrows(), b.ncols(), i, j, k, l),
    ) by {
        let x = i * nb + k;
        let y = j * mb + l;
        lemma_place(i, k, na as int, nb as int);
        lemma_place(j, l, ma as int, mb as int);
        assert(t@[x][y] == t.data@[x]@[y]);
    }
    Ok(t)
}

/// A place `p` below `outer * inner` splits into a quotient below `outer`
/// and a remainder below `inner`.
pub proof fn lemma_cell(p: int, outer: int, inner: int)
    requires
        0 <= p < outer * inner,
        inner > 0,
    ensures
        0 <= p / inner < outer,
        0 <= p % inner < inner,
{
    lemma_fundamental_div_mod(p, inner);
    assert(p / inner < outer) by (nonlinear_arith)
        requires
            p == inner * (p / inner) + p % inner,
            0 <= p % inner,
            p < outer * inner,
            inner > 0,
    ;
    assert(p / inner >= 0) by (nonlinear_arith)
        requires
            p == inner * (p / inner) + p % inner,
            p % inner < inner,
            p >= 0,
            inner > 0,
    ;
}

/// The place `i * inner + k` lies below `outer * inner` and splits back
/// into `i` and `k`.
pub proof fn lemma_place(i: int, k: int, outer: int, inner: int)
    requires
        0 <= i < outer,
        0 <= k < inner,
    ensures
        0 <= i * inner + k < outer * inner,
        (i * inner + k) / inner == i,
        (i * inner + k) % inner == k,
{
    crate::matrix::lemma_flat_index(i, k, outer, inner);
    assert(i * inner + k == inner * i + k) by (nonlinear_arith);
    lemma_fundamental_div_mod_converse(i * inner + k, inner, i, k);
}

/// The conjugate transpose.
pub fn dagger(mat: &Matrix) -> (r: Matrix)
    requires
        mat.wf(),
    ensures
        r.wf(),
        r.nrows() == mat.ncols(),
        r.ncols() == mat.nrows(),
        r@ == dagger_of(mat@, mat.ncols()),
{
    let mut data: Vec<Vec<Complex>> = Vec::new();
    let n: usize = mat.rows();
    let m: usize = mat.cols();
    let mut j: usize = 0;
    while j < m
        invariant
            j <= m,
            mat.wf(),
            n == mat.nrows(),
            m == mat.ncols(),
            data@.len() == j,
            forall|q: int| 0 <= q < j ==> (#[trigger] data@[q])@ == dagger_of(mat@, m as nat)[q],
        decreases m - j,
    {
        let mut row: Vec<Complex> = Vec::new();
        let mut i: usize = 0;
        while i < n
            invariant
                i <= n,
                j < m,
                mat.wf(),
                n == mat.nrows(),
                m == mat.ncols(),
                row@.len() == i,
                forall|p: int|
                    0 <= p < i ==> (#[trigger] row@[p]) == mat@[p][j as int].conjugate(),
            decreases n - i,
        {
            row.push(mat.get(i, j).conj());
            i += 1;
        }
        assert(row@ =~= dagger_of(mat@, m as nat)[j as int]);
        data.push(row);
        j += 1;
    }
    let r = Matrix { cols: n, data };
    assert(r@ =~= dagger_of(mat@, m as nat));
    assert forall|q: int| 0 <= q < r.data@.len() implies (#[trigger] r.data@[q])@.len()
        == r.cols by {
        assert(r.data@[q]@ == dagger_of(mat@, m as nat)[q]);
    }
    r
}

/// What [`trace`] gives: the sum of the diagonal of a square matrix, and a
/// dimension mismatch for any other.
pub open spec fn is_trace_outcome<A: Arithmetic>(
    ar: &A,
    mat: Matrix,
    r: Result<Complex, EngineError>,
) -> bool {
    match r {
        Ok(t) => mat.is_square() && is_total(ar, diagonal(mat@), t),
        Err(e) => !mat.is_square() && e == (EngineError::DimensionMismatch {
            expected: Shape::Matrix(mat.nrows() as usize, mat.nrows() as usize),
            actual: mat.shape(),
        }),
    }
}

/// The trace: the diagonal added up from zero, first element first. A matrix
/// that is not square is a dimension mismatch.
pub fn trace<A: Arithmetic>(ar: &A, mat: &Matrix) -> (r: Result<Complex, EngineError>)
    requires
        mat.wf(),
    ensures
        is_trace_outcome(ar, *mat, r),
{
    let n: usize = mat.rows();
    if n != mat.cols() {
        return Err(EngineError::dimension_mismatch(Shape::Matrix(n, n), Shape::Matrix(n, mat.cols())));
    }
    let mut diag: Vec<Complex> = Vec::new();
    let mut i: usize = 0;
    while i < n
        invariant
            i <= n,
            mat.wf(),
            n == mat.nrows(),
            n == mat.ncols(),
            diag@.len() == i,
            forall|p: int| 0 <= p < i ==> (#[trigger] diag@[p]) == mat@[p][p],
        decreases n - i,
    {
        diag.push(mat.get(i, i));
        i += 1;
    }
    assert(diag@ =~= diagonal(mat@));
    Ok(total(ar, &diag))
}

/// What [`commutator`] gives: `a b - b a` for square matrices of one
/// dimension, and a dimension mismatch that names both shapes otherwise.
pub open spec fn is_commutator_outcome<A: Arithmetic>(
    ar: &A,
    a: Matrix,
    b: Matrix,
    r: Result<Matrix, EngineError>,
) -> bool {
    match r {
        Ok(c) => a.is_square() && b.is_square() && a.nrows() == b.nrows() && c.wf()
            && c.nrows() == a.nrows() && c.ncols() == a.nrows() && is_commutator(
            ar,
            a@,
            b@,
            a.nrows(),
            c@,
        ),
        Err(e) => !(a.is_square() && b.is_square() && a.nrows() == b.nrows()) && e == (
        EngineError::DimensionMismatch { expected: a.shape(), actual: b.shape() }),
    }
}

/// The commutator `a b - b a` of two square matrices of one dimension;
/// anything else is a dimension mismatch that names both shapes.
pub fn commutator<A: Arithmetic>(ar: &A, a: &Matrix, b: &Matrix) -> (r: Result<
    Matrix,
    EngineError,
>)
    requires
        a.wf(),
        b.wf(),
    ensures
        is_commutator_outcome(ar, *a, *b, r),
{
    let n: usize = a.rows();
    if a.cols() != n || b.rows() != n || b.cols() != n {
        return Err(
            EngineError::dimension_mismatch(
                Shape::Matrix(a.rows(), a.cols()),
                Shape::Matrix(b.rows(), b.cols()),
            ),
        );
    }
    let ab = match a.times(ar, b) {
        Some(m) => m,
        None => vstd::pervasive::unreached(),
    };
    let ba = match b.times(ar, a) {
        Some(m) => m,
        None => vstd::pervasive::unreached(),
    };
    match ab.minus(ar, &ba) {
        Some(c) => {
            assert(is_matrix_product(ar, a@, b@, n as nat, ab@) && is_matrix_product(
                ar,
                b@,
                a@,
                n as nat,
                ba@,
            ) && is_matrix_difference(ar, ab@, ba@, c@));
            Ok(c)
        },
        None => vstd::pervasive::unreached(),
    }
}

/// What [`apply_unitary_ket`] gives: the product of the matrix with the ket,
/// or a dimension mismatch where their sizes do not fit.
pub open spec fn is_ket_application<A: Arithmetic>(
    ar: &A,
    unitary: Matrix,
    ket: Seq<Complex>,
    r: Result<Vec<Complex>, EngineError>,
) -> bool {
    match r {
        Ok(w) => unitary.ncols() == ket.len() && is_matrix_vector_product(
            ar,
            unitary@,
            ket,
            w@,
        ),
        Err(e) => unitary.ncols() != ket.len() && e == (EngineError::DimensionMismatch {
            expected: Shape::Vector(unitary.cols),
            actual: Shape::Vector(ket.len() as usize),
        }),
    }
}

/// The state `U ψ`. A ket whose length is not the number of columns of `U`
/// is a dimension mismatch.
pub fn apply_unitary_ket<A: Arithmetic>(ar: &A, unitary: &Matrix, ket: &Vec<Complex>) -> (r:
    Result<Vec<Complex>, EngineError>)
    requires
        unitary.wf(),
    ensures
        is_ket_application(ar, *unitary, ket@, r),
{
    match unitary.times_vector(ar, ket) {
        Some(w) => Ok(w),
        None => Err(
            EngineError::dimension_mismatch(Shape::Vector(unitary.cols()), Shape::Vector(ket.len())),
        ),
    }
}

/// What [`apply_unitary_rho`] gives: `U ρ U†`, or a dimension mismatch where
/// `ρ` is not square of the dimension of the columns of `U`.
pub open spec fn is_rho_application<A: Arithmetic>(
    ar: &A,
    unitary: Matrix,
    rho: Matrix,
    r: Result<Matrix, EngineError>,
) -> bool {
    match r {
        Ok(m) => rho.nrows() == unitary.ncols() && rho.ncols() == unitary.ncols() && m.wf()
            && m.nrows() == unitary.nrows() && m.ncols() == unitary.nrows()
            && is_conjugation(ar, unitary@, rho@, unitary.ncols(), m@),
        Err(e) => !(rho.nrows() == unitary.ncols() && rho.ncols() == unitary.ncols()) && e
            == (EngineError::DimensionMismatch {
            expected: Shape::Matrix(unitary.cols, unitary.cols),
            actual: rho.shape(),
        }),
    }
}

/// The state `U ρ U†`, computed as `(U ρ) U†`. A `ρ` that is not square of
/// the dimension of the columns of `U` is a dimension mismatch.
pub fn apply_unitary_rho<A: Arithmetic>(ar: &A, unitary: &Matrix, rho: &Matrix) -> (r: Result<
    Matrix,
    EngineError,
>)
    requires
        unitary.wf(),
        rho.wf(),
    ensures
        is_rho_application(ar, *unitary, *rho, r),
{
    let m: usize = unitary.cols();
    if rho.rows() != m || rho.cols() != m {
        return Err(
            EngineError::dimension_mismatch(
                Shape::Matrix(m, m),
                Shape::Matrix(rho.rows(), rho.cols()),
            ),
        );
    }
    let u_dagger = dagger(unitary);
    let half = match unitary.times(ar, rho) {
        Some(h) => h,
        None => vstd::pervasive::unreached(),
    };
    match half.times(ar, &u_dagger) {
        Some(r) => {
            assert(is_matrix_product(ar, unitary@, rho@, m as nat, half@) && is_matrix_product(
                ar,
                half@,
                dagger_of(unitary@, m as nat),
                unitary@.len(),
                r@,
            ));
            Ok(r)
        },
        None => vstd::pervasive::unreached(),
    }
}

/// What [`expectation`] gives: the trace of the product, or the dimension
/// mismatch of the shapes.
pub open spec fn is_expectation_outcome<A: Arithmetic>(
    ar: &A,
    observable: Matrix,
    rho: Matrix,
    r: Result<Complex, EngineError>,
) -> bool {
    match r {
        Ok(t) => expectation_fault(observable, rho) is None && is_expectation(
            ar,
            observable@,
            rho@,
            rho.ncols(),
            t,
        ),
        Err(e) => expectation_fault(observable, rho) == Some(e),
    }
}

/// The expectation value `Tr(O ρ)`. Shapes for which the product or its
/// trace is not defined are a dimension mismatch.
pub fn expectation<A: Arithmetic>(ar: &A, observable: &Matrix, rho: &Matrix) -> (r: Result<
    Complex,
    EngineError,
>)
    requires
        observable.wf(),
        rho.wf(),
    ensures
        is_expectation_outcome(ar, *observable, *rho, r),
{
    let product = match observable.times(ar, rho) {
        Some(p) => p,
        None => {
            return Err(
                EngineError::dimension_mismatch(
                    Shape::Matrix(observable.rows(), observable.cols()),
                    Shape::Matrix(rho.rows(), rho.cols()),
                ),
            );
        },
    };
    match trace(ar, &product) {
        Ok(t) => {
            assert(is_matrix_product(ar, observable@, rho@, rho.ncols(), product@) && is_total(
                ar,
                diagonal(product@),
                t,
            ));
            Ok(t)
        },
        Err(e) => Err(e),
    }
}

/// What [`measure_projective`] gives: the probabilities where every
/// projector fits the state, else the error of the first that does not.
pub open spec fn is_measurement_outcome<A: Arithmetic>(
    ar: &A,
    projectors: Seq<Matrix>,
    rho: Matrix,
    r: Result<Vec<Real>, EngineError>,
) -> bool {
    match r {
        Ok(ps) => (forall|k: int|
            0 <= k < projectors.len() ==> expectation_fault(
                #[trigger] projectors[k],
                rho,
            ) is None) && is_probabilities(ar, projectors, rho@, rho.ncols(), ps@),
        Err(e) => exists|k: int|
            0 <= k < projectors.len() && expectation_fault(#[trigger] projectors[k], rho)
                == Some(e) && forall|p: int|
                0 <= p < k ==> expectation_fault(#[trigger] projectors[p], rho) is None,
    }
}

/// The probabilities of the outcomes of a projective measurement: for each
/// projector the real part of `Tr(P ρ)`, raised to 0 where it is below, and
/// all of them divided by their sum where that sum is positive. The first
/// projector whose shape does not fit the state gives the error of
/// [`expectation`].
pub fn measure_projective<A: Arithmetic>(ar: &A, projectors: &Vec<Matrix>, rho: &Matrix) -> (r:
    Result<Vec<Real>, EngineError>)
    requires
        rho.wf(),
        forall|k: int| 0 <= k < projectors@.len() ==> (#[trigger] projectors@[k]).wf(),
    ensures
        is_measurement_outcome(ar, projectors@, *rho, r),
{
    let mut raw: Vec<Real> = Vec::new();
    let mut i: usize = 0;
    while i < projectors.len()
        invariant
            i <= projectors@.len(),
            rho.wf(),
            forall|k: int| 0 <= k < projectors@.len() ==> (#[trigger] projectors@[k]).wf(),
            raw@.len() == i,
            forall|k: int|
                0 <= k < i ==> expectation_fault(#[trigger] projectors@[k], *rho) is None,
            forall|k: int|
                0 <= k < i ==> #[trigger] is_floored_expectation(
                    ar,
                    projectors@[k]@,
                    rho@,
                    rho.ncols(),
                    raw@[k],
                ),
        decreases projectors@.len() - i,
    {
        let t = match expectation(ar, &projectors[i], rho) {
            Ok(t) => t,
            Err(e) => {
                return Err(e);
            },
        };
        let floored = t.re.max(Real::zero());
        raw.push(floored);
        assert(is_expectation(ar, projectors@[i as int]@, rho@, rho.ncols(), t) && raw@[i as int]
            == t.re.larger(Real { bits: 0 }));
        i += 1;
    }
    assert(is_raw_probabilities(ar, projectors@, rho@, rho.ncols(), raw@));
    let sum = real_total(ar, &raw);
    if !Real::zero().less_than(sum) {
        assert(is_raw_probabilities(ar, projectors@, rho@, rho.ncols(), raw@) && is_real_total(
            ar,
            raw@,
            sum,
        ));
        return Ok(raw);
    }
    let mut out: Vec<Real> = Vec::new();
    let mut k: usize = 0;
    while k < raw.len()
        invariant
            k <= raw@.len(),
            out@.len() == k,
            forall|p: int|
                0 <= p < k ==> #[trigger] is_real_quotient(ar, raw@[p], sum, out@[p]),
        decreases raw@.len() - k,
    {
        out.push(ar.div_real(raw[k], sum));
        k += 1;
    }
    assert(is_raw_probabilities(ar, projectors@, rho@, rho.ncols(), raw@) && is_real_total(
        ar,
        raw@,
        sum,
    ));
    Ok(out)
}

/// What [`ket_to_rho`] gives: the square matrix with `ρ[i,j] = ψ[i] * conj(ψ[j])`.
pub open spec fn is_outer_product<A: Arithmetic>(
    ar: &A,
    ket: Seq<Complex>,
    rho: Matrix,
) -> bool {
    &&& rho.wf()
    &&& rho.nrows() == ket.len()
    &&& rho.ncols() == ket.len()
    &&& forall|i: int, j: int|
        0 <= i < ket.len() && 0 <= j < ket.len() ==> #[trigger] is_product(
            ar,
            ket[i],
            ket[j].conjugate(),
            rho@[i][j],
        )
}

/// The density matrix of a pure state: `ρ[i,j] = ψ[i] * conj(ψ[j])`.
pub fn ket_to_rho<A: Arithmetic>(ar: &A, ket: &Vec<Complex>) -> (rho: Matrix)
    ensures
        is_outer_product(ar, ket@, rho),
{
    let n: usize = ket.len();
    let mut data: Vec<Vec<Complex>> = Vec::new();
    let mut i: usize = 0;
    while i < n
        invariant
            i <= n,
            n == ket@.len(),
            data@.len() == i,
            forall|p: int| 0 <= p < i ==> (#[trigger] data@[p])@.len() == n,
            forall|p: int, q: int|
                0 <= p < i && 0 <= q < n ==> #[trigger] is_product(
                    ar,
                    ket@[p],
                    ket@[q].conjugate(),
                    data@[p]@[q],
                ),
        decreases n - i,
    {
        let mut row: Vec<Complex> = Vec::new();
        let mut j: usize = 0;
        while j < n
            invariant
                j <= n,
                i < n,
                n == ket@.len(),
                row@.len() == j,
                forall|q: int|
                    0 <= q < j ==> #[trigger] is_product(
                        ar,
                        ket@[i as int],
                        ket@[q].conjugate(),
                        row@[q],
                    ),
            decreases n - j,
        {
            row.push(ar.mul_complex(ket[i], ket[j].conj()));
            j += 1;
        }
        data.push(row);
        i += 1;
    }
    let rho = Matrix { cols: n, data };
    assert(rho.wf());
    rho
}

} // verus!
