//! Laws of the kernels, stated over the predicates that their contracts use.

use crate::arith::{
    complex_zero, is_count, is_difference, is_dot, is_norm_sqr, is_product, is_real_difference,
    is_real_exp, is_real_quotient, is_real_sum, is_real_total, is_sum, is_total, Arithmetic,
};
use crate::error::{EngineError, ExecutionFault};
use crate::executor::{is_applied, is_evaluation, is_outcome, operands_earlier, values_of, Value};
use crate::ir::{nodes_ordered, IrNode, NodeId};
use crate::kernels::{
    decomposition_fits, grid_of, is_commutator_outcome, is_decomposition, is_exp_outcome,
    is_exponentials, is_matrix_exponential, is_outer_product, is_spectral_exponential,
    is_tensor_outcome, is_trace_outcome, is_weighted_dot, is_weighted_term,
};
use crate::matrix::{
    column, dagger_of, diagonal, identity_grid, is_matrix_difference, is_matrix_product,
    is_matrix_sum, is_scaled, rectangular, zero_grid, Matrix,
};
use crate::ode::{
    embed, is_advance, is_derivative, is_integration, is_rk4_step, is_rk4_transition, is_stage,
    is_unitary_part, is_weighting, minus_i, OdeResult, Rk4Integrator, SIX_BITS, TWO_BITS,
};
use crate::scalar::{Complex, Real, ONE_BITS};
use crate::validator::is_norm_squared;
use vstd::prelude::*;

verus! {

/// The products and sums of a supplier are functions of their operands.
pub open spec fn single_valued<A: Arithmetic>(ar: &A) -> bool {
    &&& forall|x: Complex, y: Complex, p: Complex, q: Complex|
        #![trigger is_product(ar, x, y, p), is_product(ar, x, y, q)]
        is_product(ar, x, y, p) && is_product(ar, x, y, q) ==> p == q
    &&& forall|x: Complex, y: Complex, p: Complex, q: Complex|
        #![trigger is_sum(ar, x, y, p), is_sum(ar, x, y, q)]
        is_sum(ar, x, y, p) && is_sum(ar, x, y, q) ==> p == q
}

/// Whether both parts of a complex number are numbers and finite.
pub open spec fn is_finite(x: Complex) -> bool {
    x.re.finite() && x.im.finite()
}

/// The difference of a finite number with itself is zero. Of an infinity
/// or a NaN nothing is asked: their difference with themselves is a NaN.
pub open spec fn cancels<A: Arithmetic>(ar: &A) -> bool {
    forall|x: Complex, d: Complex|
        is_finite(x) && #[trigger] is_difference(ar, x, x, d) ==> d == complex_zero()
}

/// Every element of a product of the square matrix `a` with itself is
/// finite.
pub open spec fn has_finite_square<A: Arithmetic>(ar: &A, a: Matrix) -> bool {
    forall|ab: Seq<Seq<Complex>>, i: int, j: int|
        #![trigger is_matrix_product(ar, a@, a@, a.nrows(), ab), ab[i][j]]
        is_matrix_product(ar, a@, a@, a.nrows(), ab) && 0 <= i < a.nrows() && 0 <= j < a.nrows()
            ==> is_finite(ab[i][j])
}

/// Two conjugate transposes give a matrix back exactly: for every matrix
/// `M`, Hermitian or not, `dagger(dagger(M)) == M`, bit for bit.
pub proof fn lemma_dagger_involution(m: Matrix)
    requires
        m.wf(),
    ensures
        dagger_of(dagger_of(m@, m.ncols()), m.nrows()) == m@,
{
    assert(rectangular(m@, m.ncols())) by {
        assert forall|i: int| 0 <= i < m@.len() implies (#[trigger] m@[i]).len() == m.ncols() by {
            assert(m@[i] == m.data@[i]@);
        }
    }
    crate::matrix::lemma_dagger_twice(m@, m.ncols());
}

/// The diagonal of the identity of dimension `n` is `n` ones, so its trace
/// is what the supplier gives for the sum of `n` ones.
pub proof fn lemma_trace_of_identity<A: Arithmetic>(
    ar: &A,
    identity: Matrix,
    n: nat,
    r: Result<Complex, EngineError>,
)
    requires
        identity@ == identity_grid(n),
        identity.ncols() == n,
        is_trace_outcome(ar, identity, r),
    ensures
        r is Ok,
        is_total(
            ar,
            Seq::new(n, |k: int| Complex { re: Real { bits: ONE_BITS }, im: Real { bits: 0 } }),
            r->Ok_0,
        ),
{
    assert(identity.nrows() == identity@.len());
    assert(diagonal(identity@) =~= Seq::new(
        n,
        |k: int| Complex { re: Real { bits: ONE_BITS }, im: Real { bits: 0 } },
    ));
}

/// The trace of a matrix that is not square is an error.
pub proof fn lemma_trace_needs_square<A: Arithmetic>(
    ar: &A,
    m: Matrix,
    r: Result<Complex, EngineError>,
)
    requires
        !m.is_square(),
        is_trace_outcome(ar, m, r),
    ensures
        r is Err,
{
}

/// With products and sums that are functions, a dot product is a function
/// of its operands.
pub proof fn lemma_dot_single_valued<A: Arithmetic>(
    ar: &A,
    xs: Seq<Complex>,
    ys: Seq<Complex>,
    n: nat,
    p: Complex,
    q: Complex,
)
    requires
        single_valued(ar),
        is_dot(ar, xs, ys, n, p),
        is_dot(ar, xs, ys, n, q),
    ensures
        p == q,
    decreases n,
{
    if n > 0 {
        let (acc1, t1) = choose|acc: Complex, t: Complex|
            is_dot(ar, xs, ys, (n - 1) as nat, acc) && is_product(ar, xs[n - 1], ys[n - 1], t)
                && #[trigger] is_sum(ar, acc, t, p);
        let (acc2, t2) = choose|acc: Complex, t: Complex|
            is_dot(ar, xs, ys, (n - 1) as nat, acc) && is_product(ar, xs[n - 1], ys[n - 1], t)
                && #[trigger] is_sum(ar, acc, t, q);
        lemma_dot_single_valued(ar, xs, ys, (n - 1) as nat, acc1, acc2);
        assert(t1 == t2);
    }
}

/// The commutator of a matrix with itself is the zero matrix, where the
/// product of the matrix with itself is finite: for a supplier whose
/// products and sums are functions and for which the difference of a
/// finite number with itself is zero.
pub proof fn lemma_commutator_with_itself<A: Arithmetic>(
    ar: &A,
    a: Matrix,
    r: Result<Matrix, EngineError>,
)
    requires
        a.wf(),
        a.is_square(),
        single_valued(ar),
        cancels(ar),
        has_finite_square(ar, a),
        is_commutator_outcome(ar, a, a, r),
    ensures
        r is Ok,
        r->Ok_0@ == zero_grid(a.nrows(), a.nrows()),
{
    let n = a.nrows();
    let c = r->Ok_0;
    let (ab, ba) = choose|ab: Seq<Seq<Complex>>, ba: Seq<Seq<Complex>>|
        is_matrix_product(ar, a@, a@, n, ab) && is_matrix_product(ar, a@, a@, n, ba)
            && #[trigger] is_matrix_difference(ar, ab, ba, c@);
    assert forall|i: int| 0 <= i < n implies #[trigger] c@[i] == zero_grid(n, n)[i] by {
        assert(c@[i] == c.data@[i]@);
        assert(c@[i].len() == ab[i].len());
        assert forall|j: int| 0 <= j < n implies #[trigger] c@[i][j] == complex_zero() by {
            assert(is_dot(ar, a@[i], crate::matrix::column(a@, j), a@.len(), ab[i][j]));
            assert(is_dot(ar, a@[i], crate::matrix::column(a@, j), a@.len(), ba[i][j]));
            lemma_dot_single_valued(
                ar,
                a@[i],
                crate::matrix::column(a@, j),
                a@.len(),
                ab[i][j],
                ba[i][j],
            );
            assert(is_finite(ab[i][j]));
            assert(is_difference(ar, ab[i][j], ba[i][j], c@[i][j]));
        }
        assert(c@[i] =~= zero_grid(n, n)[i]);
    }
    assert(c@ =~= zero_grid(n, n));
}

/// The tensor product of an `n` by `m` with a `p` by `q` matrix has
/// `n * p` rows and `m * q` columns wherever these fit the machine's word,
/// and is an error where they do not.
pub proof fn lemma_tensor_shape<A: Arithmetic>(
    ar: &A,
    a: Matrix,
    b: Matrix,
    r: Result<Matrix, EngineError>,
)
    requires
        is_tensor_outcome(ar, a, b, r),
    ensures
        r is Ok ==> r->Ok_0.nrows() == a.nrows() * b.nrows() && r->Ok_0.ncols() == a.ncols()
            * b.ncols(),
        r is Err ==> a.nrows() * b.nrows() > usize::MAX || a.ncols() * b.ncols() > usize::MAX,
{
}

/// The density matrix of a ket has on its diagonal the products of each
/// element with its own conjugate, and its trace is their sum.
pub proof fn lemma_density_diagonal<A: Arithmetic>(
    ar: &A,
    ket: Seq<Complex>,
    rho: Matrix,
    t: Result<Complex, EngineError>,
)
    requires
        is_outer_product(ar, ket, rho),
        is_trace_outcome(ar, rho, t),
    ensures
        forall|i: int|
            0 <= i < ket.len() ==> #[trigger] is_product(
                ar,
                ket[i],
                ket[i].conjugate(),
                diagonal(rho@)[i],
            ),
        t is Ok,
        is_total(ar, diagonal(rho@), t->Ok_0),
{
    assert forall|i: int| 0 <= i < ket.len() implies #[trigger] is_product(
        ar,
        ket[i],
        ket[i].conjugate(),
        diagonal(rho@)[i],
    ) by {
        assert(is_product(ar, ket[i], ket[i].conjugate(), rho@[i][i]));
    }
}

/// The errors that only a graph with a misplaced node or a reference to a
/// node that does not come before can give.
pub open spec fn is_reference_fault(e: EngineError) -> bool {
    match e {
        EngineError::ExecutionError(ExecutionFault::NodeNotFound { .. }) => true,
        EngineError::ExecutionError(ExecutionFault::MisplacedNode { .. }) => true,
        EngineError::ExecutionError(ExecutionFault::ForwardReference { .. }) => true,
        _ => false,
    }
}

/// Applying a node to the values of its operands never gives a reference
/// fault.
pub proof fn lemma_applied_without_reference_fault<A: Arithmetic>(
    ar: &A,
    node: IrNode,
    vals: Seq<Value>,
    r: Result<Value, EngineError>,
)
    requires
        is_applied(ar, node, vals, r),
        r is Err,
    ensures
        !is_reference_fault(r->Err_0),
{
}

/// In a graph whose nodes carry their positions and read earlier nodes
/// only, the evaluation of a node never gives a reference fault: whatever
/// fails, it is not the graph.
pub proof fn lemma_ordered_graph_evaluates<A: Arithmetic>(
    ar: &A,
    nodes: Seq<IrNode>,
    id: NodeId,
    r: Result<Value, EngineError>,
)
    requires
        nodes_ordered(nodes),
        id < nodes.len(),
        is_evaluation(ar, nodes, id, r),
        r is Err,
    ensures
        !is_reference_fault(r->Err_0),
    decreases id,
{
    let node = nodes[id as int];
    assert(node.spec_id() == id);
    assert(operands_earlier(node, id));
    let results = choose|results: Seq<Result<Value, EngineError>>| #[trigger]
        is_outcome(ar, node, results, r) && forall|j: int|
            0 <= j < results.len() && j < node.operands().len() && node.operands()[j] < id
                ==> is_evaluation(ar, nodes, node.operands()[j], #[trigger] results[j]);
    if results.len() > 0 && results.last() is Err {
        let j = results.len() - 1;
        assert(node.operands()[j] < id);
        assert(is_evaluation(ar, nodes, node.operands()[j], results[j]));
        lemma_ordered_graph_evaluates(ar, nodes, node.operands()[j], results[j]);
    } else {
        lemma_applied_without_reference_fault(ar, node, values_of(results), r);
    }
}

/// The supplier counts up to `n`: its count zero is `+0`, and adding one
/// to its count `k` gives its count `k + 1`, for every `k` below `n`.
pub open spec fn counts_to<A: Arithmetic>(ar: &A, n: nat) -> bool {
    &&& forall|c: Real| #[trigger] is_count(ar, 0usize, c) ==> c == (Real { bits: 0 })
    &&& forall|k: usize, next: usize, a: Real, b: Real, r: Complex|
        #![trigger is_count(ar, k, a), is_count(ar, next, b), is_sum(ar, embed(a), embed(Real { bits: ONE_BITS }), r)]
        k < n && next == k + 1 && is_count(ar, k, a) && is_count(ar, next, b) && is_sum(
            ar,
            embed(a),
            embed(Real { bits: ONE_BITS }),
            r,
        ) ==> r == embed(b)
}

/// `cs` holds the supplier's counts from 0 to `n`.
pub open spec fn are_counts<A: Arithmetic>(ar: &A, n: usize, cs: Seq<Real>) -> bool {
    &&& cs.len() == n + 1
    &&& forall|k: usize| k <= n ==> is_count(ar, k, #[trigger] cs[k as int])
}

/// For a supplier that counts, the sum of `k` ones is its count `k`.
proof fn lemma_ones_add_up<A: Arithmetic>(ar: &A, n: usize, cs: Seq<Real>, k: usize, t: Complex)
    requires
        counts_to(ar, n as nat),
        are_counts(ar, n, cs),
        k <= n,
        is_total(ar, Seq::new(k as nat, |p: int| embed(Real { bits: ONE_BITS })), t),
    ensures
        t == embed(cs[k as int]),
    decreases k,
{
    let ones = Seq::new(k as nat, |p: int| embed(Real { bits: ONE_BITS }));
    if k == 0 {
        assert(is_count(ar, 0usize, cs[0]));
    } else {
        let acc = choose|acc: Complex|
            is_total(ar, ones.drop_last(), acc) && #[trigger] is_sum(ar, acc, ones.last(), t);
        let before: usize = (k - 1) as usize;
        assert(ones.drop_last() =~= Seq::new(
            before as nat,
            |p: int| embed(Real { bits: ONE_BITS }),
        ));
        lemma_ones_add_up(ar, n, cs, before, acc);
        assert(is_count(ar, before, cs[before as int]) && is_count(ar, k, cs[k as int]));
        assert(is_sum(ar, embed(cs[before as int]), embed(Real { bits: ONE_BITS }), t));
    }
}

/// The trace of the identity of dimension `n` is `n`: for a supplier that
/// counts up to `n`, it is the supplier's count `n`, with imaginary part
/// `+0`.
pub proof fn lemma_trace_of_identity_is_its_dimension<A: Arithmetic>(
    ar: &A,
    identity: Matrix,
    n: usize,
    cs: Seq<Real>,
    r: Result<Complex, EngineError>,
)
    requires
        identity@ == identity_grid(n as nat),
        identity.ncols() == n,
        is_trace_outcome(ar, identity, r),
        counts_to(ar, n as nat),
        are_counts(ar, n, cs),
    ensures
        r == Ok::<Complex, EngineError>(embed(cs[n as int])),
{
    lemma_trace_of_identity(ar, identity, n as nat, r);
    assert(Seq::new(n as nat, |k: int| Complex { re: Real { bits: ONE_BITS }, im: Real { bits: 0 } })
        =~= Seq::new(n as nat, |p: int| embed(Real { bits: ONE_BITS })));
    lemma_ones_add_up(ar, n, cs, n, r->Ok_0);
}

/// The product of a number with its conjugate is its squared modulus, with
/// imaginary part `+0`.
pub open spec fn squares_by_conjugate<A: Arithmetic>(ar: &A) -> bool {
    forall|z: Complex, p: Complex, q: Real|
        #![trigger is_product(ar, z, z.conjugate(), p), is_norm_sqr(ar, z, q)]
        is_product(ar, z, z.conjugate(), p) && is_norm_sqr(ar, z, q) ==> p == embed(q)
}

/// The sum of two real numbers taken as complex ones is their real sum,
/// with imaginary part `+0`.
pub open spec fn adds_reals<A: Arithmetic>(ar: &A) -> bool {
    forall|a: Real, b: Real, r: Complex, s: Real|
        #![trigger is_sum(ar, embed(a), embed(b), r), is_real_sum(ar, a, b, s)]
        is_sum(ar, embed(a), embed(b), r) && is_real_sum(ar, a, b, s) ==> r == embed(s)
}

/// For a supplier that adds reals, the complex sum of real numbers is
/// their real sum.
proof fn lemma_real_totals<A: Arithmetic>(
    ar: &A,
    xs: Seq<Complex>,
    qs: Seq<Real>,
    t: Complex,
    s: Real,
)
    requires
        adds_reals(ar),
        xs.len() == qs.len(),
        forall|k: int| 0 <= k < xs.len() ==> #[trigger] xs[k] == embed(qs[k]),
        is_total(ar, xs, t),
        is_real_total(ar, qs, s),
    ensures
        t == embed(s),
    decreases xs.len(),
{
    if xs.len() > 0 {
        let acc = choose|acc: Complex|
            is_total(ar, xs.drop_last(), acc) && #[trigger] is_sum(ar, acc, xs.last(), t);
        let part = choose|part: Real|
            is_real_total(ar, qs.drop_last(), part) && #[trigger] is_real_sum(
                ar,
                part,
                qs.last(),
                s,
            );
        assert forall|k: int| 0 <= k < xs.drop_last().len() implies #[trigger] xs.drop_last()[k]
            == embed(qs.drop_last()[k]) by {
            assert(xs[k] == embed(qs[k]));
        }
        lemma_real_totals(ar, xs.drop_last(), qs.drop_last(), acc, part);
        assert(xs.last() == embed(qs.last()));
        assert(is_sum(ar, embed(part), embed(qs.last()), t));
    }
}

/// The density matrix of a ket has the squared moduli of the ket's
/// elements on its diagonal, and the ket's squared norm as its trace, each
/// with imaginary part `+0`: for a supplier for which the product of a
/// number with its conjugate is its squared modulus, and which adds real
/// numbers as such. The squared norm `s` is the number that the check of a
/// ket compares with one, so the trace of the density matrix of a
/// normalized ket is one within the tolerance of that check.
pub proof fn lemma_density_trace<A: Arithmetic>(
    ar: &A,
    ket: Seq<Complex>,
    rho: Matrix,
    squares: Seq<Real>,
    s: Real,
    t: Result<Complex, EngineError>,
)
    requires
        squares_by_conjugate(ar),
        adds_reals(ar),
        is_outer_product(ar, ket, rho),
        is_trace_outcome(ar, rho, t),
        squares.len() == ket.len(),
        forall|k: int| 0 <= k < ket.len() ==> #[trigger] is_norm_sqr(ar, ket[k], squares[k]),
        is_real_total(ar, squares, s),
    ensures
        forall|i: int| 0 <= i < ket.len() ==> #[trigger] rho@[i][i] == embed(squares[i]),
        t == Ok::<Complex, EngineError>(embed(s)),
        is_norm_squared(ar, ket, s),
{
    assert forall|i: int| 0 <= i < ket.len() implies #[trigger] rho@[i][i] == embed(
        squares[i],
    ) by {
        assert(is_product(ar, ket[i], ket[i].conjugate(), rho@[i][i]));
        assert(is_norm_sqr(ar, ket[i], squares[i]));
    }
    assert(rho@.len() == ket.len());
    assert forall|k: int| 0 <= k < diagonal(rho@).len() implies #[trigger] diagonal(rho@)[k]
        == embed(squares[k]) by {
        assert(rho@[k][k] == embed(squares[k]));
    }
    lemma_real_totals(ar, diagonal(rho@), squares, t->Ok_0, s);
}

/// Whether both parts of a complex number are zeros, of either sign.
pub open spec fn is_nothing(z: Complex) -> bool {
    z.re.magnitude() == 0 && z.im.magnitude() == 0
}

/// Whether two complex numbers are equal as numbers: the two zeros are
/// equal, and a NaN equals nothing.
pub open spec fn same_number(a: Complex, b: Complex) -> bool {
    a.re.same_value(b.re) && a.im.same_value(b.im)
}

/// Whether a grid is `n` by `n` and holds zeros only.
pub open spec fn is_null(g: Seq<Seq<Complex>>, n: nat) -> bool {
    &&& g.len() == n
    &&& rectangular(g, n)
    &&& forall|i: int, j: int| 0 <= i < n && 0 <= j < n ==> is_nothing(#[trigger] g[i][j])
}

/// Whether a grid is `n` by `n` and holds finite numbers only.
pub open spec fn is_finite_grid(g: Seq<Seq<Complex>>, n: nat) -> bool {
    &&& g.len() == n
    &&& rectangular(g, n)
    &&& forall|i: int, j: int| 0 <= i < n && 0 <= j < n ==> is_finite(#[trigger] g[i][j])
}

/// Whether two `n` by `n` grids hold the same numbers.
pub open spec fn same_grid(a: Seq<Seq<Complex>>, b: Seq<Seq<Complex>>, n: nat) -> bool {
    &&& a.len() == n
    &&& rectangular(a, n)
    &&& b.len() == n
    &&& rectangular(b, n)
    &&& forall|i: int, j: int|
        0 <= i < n && 0 <= j < n ==> same_number(#[trigger] a[i][j], b[i][j])
}

/// The supplier's arithmetic on zeros and finite numbers: a product of
/// finite numbers with a zero among them is a zero; a finite number plus a
/// zero is that number; a zero less a zero is a zero; and half and a sixth
/// of a finite number are finite.
pub open spec fn keeps_zero<A: Arithmetic>(ar: &A) -> bool {
    &&& forall|x: Complex, y: Complex, p: Complex| #[trigger]
        is_product(ar, x, y, p) && is_finite(x) && is_finite(y) && (is_nothing(x) || is_nothing(
            y,
        )) ==> is_nothing(p)
    &&& forall|x: Complex, y: Complex, r: Complex| #[trigger]
        is_sum(ar, x, y, r) && is_finite(x) && is_nothing(y) ==> same_number(r, x)
    &&& forall|x: Complex, y: Complex, r: Complex| #[trigger]
        is_difference(ar, x, y, r) && is_nothing(x) && is_nothing(y) ==> is_nothing(r)
    &&& forall|x: Real, q: Real| #[trigger]
        is_real_quotient(ar, x, Real { bits: TWO_BITS }, q) && x.finite() ==> q.finite()
    &&& forall|x: Real, q: Real| #[trigger]
        is_real_quotient(ar, x, Real { bits: SIX_BITS }, q) && x.finite() ==> q.finite()
}

/// Whether every step of a time grid is finite.
pub open spec fn has_finite_steps<A: Arithmetic>(ar: &A, times: Seq<Real>) -> bool {
    forall|i: int, dt: Real|
        1 <= i < times.len() && #[trigger] is_real_difference(ar, times[i], times[i - 1], dt)
            ==> dt.finite()
}

proof fn lemma_dot_nothing<A: Arithmetic>(
    ar: &A,
    xs: Seq<Complex>,
    ys: Seq<Complex>,
    n: nat,
    p: Complex,
)
    requires
        keeps_zero(ar),
        n <= xs.len(),
        n <= ys.len(),
        forall|k: int|
            0 <= k < n ==> is_finite(#[trigger] xs[k]) && is_finite(ys[k]) && (is_nothing(xs[k])
                || is_nothing(ys[k])),
        is_dot(ar, xs, ys, n, p),
    ensures
        is_nothing(p),
    decreases n,
{
    if n > 0 {
        let (acc, t) = choose|acc: Complex, t: Complex|
            is_dot(ar, xs, ys, (n - 1) as nat, acc) && is_product(ar, xs[n - 1], ys[n - 1], t)
                && #[trigger] is_sum(ar, acc, t, p);
        lemma_dot_nothing(ar, xs, ys, (n - 1) as nat, acc);
        assert(is_finite(xs[n - 1]));
        assert(is_nothing(t));
        assert(same_number(p, acc));
    }
}

proof fn lemma_product_nothing<A: Arithmetic>(
    ar: &A,
    a: Seq<Seq<Complex>>,
    b: Seq<Seq<Complex>>,
    n: nat,
    c: Seq<Seq<Complex>>,
)
    requires
        keeps_zero(ar),
        is_finite_grid(a, n),
        is_finite_grid(b, n),
        is_null(a, n) || is_null(b, n),
        is_matrix_product(ar, a, b, n, c),
    ensures
        is_null(c, n),
{
    assert forall|i: int, j: int| 0 <= i < n && 0 <= j < n implies is_nothing(
        #[trigger] c[i][j],
    ) by {
        let col = column(b, j);
        assert(is_dot(ar, a[i], col, b.len(), c[i][j]));
        assert(a[i].len() == n);
        assert forall|k: int| 0 <= k < n implies is_finite(#[trigger] a[i][k]) && is_finite(
            col[k],
        ) && (is_nothing(a[i][k]) || is_nothing(col[k])) by {
            assert(col[k] == b[k][j]);
            assert(is_finite(b[k][j]));
            if is_null(a, n) {
                assert(is_nothing(a[i][k]));
            } else {
                assert(is_nothing(b[k][j]));
            }
        }
        lemma_dot_nothing(ar, a[i], col, n, c[i][j]);
    }
}

proof fn lemma_derivative_at_rest<A: Arithmetic>(
    ar: &A,
    ops: Seq<(Matrix, Real)>,
    rho: Seq<Seq<Complex>>,
    n: nat,
    d: Seq<Seq<Complex>>,
)
    requires
        keeps_zero(ar),
        ops.len() == 0,
        is_finite_grid(rho, n),
        is_derivative(ar, zero_grid(n, n), ops, rho, n, d),
    ensures
        is_null(d, n),
{
    let h = zero_grid(n, n);
    assert(is_unitary_part(ar, h, rho, n, d));
    let (h_rho, rho_h, comm, turned) = choose|
        h_rho: Seq<Seq<Complex>>,
        rho_h: Seq<Seq<Complex>>,
        comm: Seq<Seq<Complex>>,
        turned: Seq<Seq<Complex>>,
    |
        #![trigger is_matrix_difference(ar, h_rho, rho_h, comm), is_scaled(ar, comm, minus_i(), turned)]
        is_matrix_product(ar, h, rho, n, h_rho) && is_matrix_product(ar, rho, h, n, rho_h)
            && is_matrix_difference(ar, h_rho, rho_h, comm) && is_scaled(
            ar,
            comm,
            minus_i(),
            turned,
        ) && is_matrix_sum(ar, zero_grid(n, n), turned, d);
    assert(is_null(h, n) && is_finite_grid(h, n));
    lemma_product_nothing(ar, h, rho, n, h_rho);
    lemma_product_nothing(ar, rho, h, n, rho_h);
    assert forall|i: int, j: int| 0 <= i < n && 0 <= j < n implies is_nothing(
        #[trigger] comm[i][j],
    ) by {
        assert(comm[i].len() == h_rho[i].len());
        assert(is_difference(ar, h_rho[i][j], rho_h[i][j], comm[i][j]));
    }
    assert forall|i: int, j: int| 0 <= i < n && 0 <= j < n implies is_nothing(
        #[trigger] turned[i][j],
    ) by {
        assert(turned[i].len() == comm[i].len());
        assert(comm[i].len() == h_rho[i].len());
        assert(is_nothing(comm[i][j]));
        assert(is_product(ar, comm[i][j], minus_i(), turned[i][j]));
        assert(is_finite(minus_i()));
    }
    assert forall|i: int, j: int| 0 <= i < n && 0 <= j < n implies is_nothing(
        #[trigger] d[i][j],
    ) by {
        assert(d[i].len() == h[i].len());
        assert(is_nothing(turned[i][j]));
        assert(is_sum(ar, h[i][j], turned[i][j], d[i][j]));
        assert(same_number(d[i][j], h[i][j]));
    }
    assert forall|i: int| 0 <= i < d.len() implies (#[trigger] d[i]).len() == n by {
        assert(d[i].len() == h[i].len());
    }
}

proof fn lemma_advance_keeps<A: Arithmetic>(
    ar: &A,
    rho: Seq<Seq<Complex>>,
    k: Seq<Seq<Complex>>,
    factor: Complex,
    n: nat,
    r: Seq<Seq<Complex>>,
)
    requires
        keeps_zero(ar),
        is_finite_grid(rho, n),
        is_null(k, n),
        is_finite(factor),
        is_advance(ar, rho, k, factor, r),
    ensures
        same_grid(r, rho, n),
        is_finite_grid(r, n),
{
    let step = choose|step: Seq<Seq<Complex>>|
        is_scaled(ar, k, factor, step) && #[trigger] is_matrix_sum(ar, rho, step, r);
    assert forall|i: int| 0 <= i < r.len() implies (#[trigger] r[i]).len() == n by {
        assert(r[i].len() == rho[i].len());
    }
    assert forall|i: int, j: int| 0 <= i < n && 0 <= j < n implies same_number(
        #[trigger] r[i][j],
        rho[i][j],
    ) && is_finite(r[i][j]) by {
        assert(r[i].len() == rho[i].len());
        assert(step[i].len() == k[i].len());
        assert(is_nothing(k[i][j]));
        assert(is_product(ar, k[i][j], factor, step[i][j]));
        assert(is_nothing(step[i][j]));
        assert(is_finite(rho[i][j]));
        assert(is_sum(ar, rho[i][j], step[i][j], r[i][j]));
    }
}

proof fn lemma_stage_at_rest<A: Arithmetic>(
    ar: &A,
    ops: Seq<(Matrix, Real)>,
    rho: Seq<Seq<Complex>>,
    k: Seq<Seq<Complex>>,
    factor: Complex,
    n: nat,
    next: Seq<Seq<Complex>>,
)
    requires
        keeps_zero(ar),
        ops.len() == 0,
        is_finite_grid(rho, n),
        is_null(k, n),
        is_finite(factor),
        is_stage(ar, zero_grid(n, n), ops, rho, k, factor, n, next),
    ensures
        is_null(next, n),
{
    let mid = choose|mid: Seq<Seq<Complex>>|
        is_advance(ar, rho, k, factor, mid) && #[trigger] is_derivative(
            ar,
            zero_grid(n, n),
            ops,
            mid,
            n,
            next,
        );
    lemma_advance_keeps(ar, rho, k, factor, n, mid);
    lemma_derivative_at_rest(ar, ops, mid, n, next);
}

proof fn lemma_weighting_nothing<A: Arithmetic>(
    ar: &A,
    k1: Seq<Seq<Complex>>,
    k2: Seq<Seq<Complex>>,
    k3: Seq<Seq<Complex>>,
    k4: Seq<Seq<Complex>>,
    n: nat,
    w: Seq<Seq<Complex>>,
)
    requires
        keeps_zero(ar),
        is_null(k1, n),
        is_null(k2, n),
        is_null(k3, n),
        is_null(k4, n),
        is_weighting(ar, k1, k2, k3, k4, w),
    ensures
        is_null(w, n),
{
    let two = embed(Real { bits: TWO_BITS });
    let (twice2, sum12, twice3, sum123) = choose|
        twice2: Seq<Seq<Complex>>,
        sum12: Seq<Seq<Complex>>,
        twice3: Seq<Seq<Complex>>,
        sum123: Seq<Seq<Complex>>,
    |
        #![trigger is_matrix_sum(ar, k1, twice2, sum12), is_matrix_sum(ar, sum12, twice3, sum123)]
        is_scaled(ar, k2, embed(Real { bits: TWO_BITS }), twice2) && is_matrix_sum(
            ar,
            k1,
            twice2,
            sum12,
        ) && is_scaled(ar, k3, embed(Real { bits: TWO_BITS }), twice3) && is_matrix_sum(
            ar,
            sum12,
            twice3,
            sum123,
        ) && is_matrix_sum(ar, sum123, k4, w);
    assert(is_finite(two));
    assert forall|i: int, j: int| 0 <= i < n && 0 <= j < n implies is_nothing(
        #[trigger] w[i][j],
    ) by {
        assert(twice2[i].len() == k2[i].len());
        assert(twice3[i].len() == k3[i].len());
        assert(sum12[i].len() == k1[i].len());
        assert(sum123[i].len() == sum12[i].len());
        assert(w[i].len() == sum123[i].len());
        assert(is_nothing(k1[i][j]) && is_nothing(k2[i][j]) && is_nothing(k3[i][j])
            && is_nothing(k4[i][j]));
        assert(is_product(ar, k2[i][j], two, twice2[i][j]));
        assert(is_product(ar, k3[i][j], two, twice3[i][j]));
        assert(is_sum(ar, k1[i][j], twice2[i][j], sum12[i][j]));
        assert(same_number(sum12[i][j], k1[i][j]));
        assert(is_sum(ar, sum12[i][j], twice3[i][j], sum123[i][j]));
        assert(same_number(sum123[i][j], sum12[i][j]));
        assert(is_sum(ar, sum123[i][j], k4[i][j], w[i][j]));
        assert(same_number(w[i][j], sum123[i][j]));
    }
    assert forall|i: int| 0 <= i < w.len() implies (#[trigger] w[i]).len() == n by {
        assert(twice2[i].len() == k2[i].len());
        assert(sum12[i].len() == k1[i].len());
        assert(sum123[i].len() == sum12[i].len());
        assert(w[i].len() == sum123[i].len());
    }
}

/// One Runge-Kutta step without a Hamiltonian and without dissipation
/// keeps a finite state, as numbers.
proof fn lemma_step_at_rest<A: Arithmetic>(
    ar: &A,
    ops: Seq<(Matrix, Real)>,
    n: nat,
    rho: Seq<Seq<Complex>>,
    dt: Real,
    next: Seq<Seq<Complex>>,
)
    requires
        keeps_zero(ar),
        ops.len() == 0,
        is_finite_grid(rho, n),
        dt.finite(),
        is_rk4_step(ar, zero_grid(n, n), ops, n, rho, dt, next),
    ensures
        same_grid(next, rho, n),
        is_finite_grid(next, n),
{
    let h = zero_grid(n, n);
    let (half, sixth, k1, k2, k3, k4, w) = choose|
        half: Real,
        sixth: Real,
        k1: Seq<Seq<Complex>>,
        k2: Seq<Seq<Complex>>,
        k3: Seq<Seq<Complex>>,
        k4: Seq<Seq<Complex>>,
        w: Seq<Seq<Complex>>,
    |
        #![trigger is_stage(ar, h, ops, rho, k1, embed(half), n, k2), is_stage(ar, h, ops, rho, k3, embed(dt), n, k4), is_advance(ar, rho, w, embed(sixth), next)]
        is_real_quotient(ar, dt, Real { bits: TWO_BITS }, half) && is_real_quotient(
            ar,
            dt,
            Real { bits: SIX_BITS },
            sixth,
        ) && is_derivative(ar, h, ops, rho, n, k1) && is_stage(
            ar,
            h,
            ops,
            rho,
            k1,
            embed(half),
            n,
            k2,
        ) && is_stage(ar, h, ops, rho, k2, embed(half), n, k3) && is_stage(
            ar,
            h,
            ops,
            rho,
            k3,
            embed(dt),
            n,
            k4,
        ) && is_weighting(ar, k1, k2, k3, k4, w) && is_advance(ar, rho, w, embed(sixth), next);
    assert(half.finite() && sixth.finite());
    assert(is_finite(embed(half)) && is_finite(embed(sixth)) && is_finite(embed(dt)));
    lemma_derivative_at_rest(ar, ops, rho, n, k1);
    lemma_stage_at_rest(ar, ops, rho, k1, embed(half), n, k2);
    lemma_stage_at_rest(ar, ops, rho, k2, embed(half), n, k3);
    lemma_stage_at_rest(ar, ops, rho, k3, embed(dt), n, k4);
    lemma_weighting_nothing(ar, k1, k2, k3, k4, n, w);
    lemma_advance_keeps(ar, rho, w, embed(sixth), n, next);
}

proof fn lemma_states_at_rest<A: Arithmetic>(
    ar: &A,
    integ: Rk4Integrator,
    rho: Matrix,
    times: Seq<Real>,
    res: OdeResult,
    k: int,
)
    requires
        keeps_zero(ar),
        has_finite_steps(ar, times),
        rho.wf(),
        rho.is_square(),
        is_finite_grid(rho@, rho.nrows()),
        integ.hamiltonian@ == zero_grid(rho.nrows(), rho.nrows()),
        integ.hamiltonian.ncols() == rho.nrows(),
        integ.lindblad_ops@.len() == 0,
        is_integration(ar, integ, rho, times, Ok::<OdeResult, EngineError>(res)),
        0 <= k < times.len(),
    ensures
        same_grid(res.states@[k]@, rho@, rho.nrows()),
        is_finite_grid(res.states@[k]@, rho.nrows()),
    decreases k,
{
    let n = rho.nrows();
    assert(integ.hamiltonian.nrows() == n) by {
        assert(integ.hamiltonian@.len() == n);
    }
    assert(integ.fits(n));
    if k == 0 {
        assert(res.states@[0]@ == rho@);
    } else {
        lemma_states_at_rest(ar, integ, rho, times, res, k - 1);
        let prev = res.states@[k - 1]@;
        let next = res.states@[k]@;
        assert(is_rk4_transition(
            ar,
            integ.hamiltonian@,
            integ.lindblad_ops@,
            n,
            times[k - 1],
            times[k],
            prev,
            next,
        ));
        let dt = choose|dt: Real|
            is_real_difference(ar, times[k], times[k - 1], dt) && !dt.le(Real { bits: 0 })
                && #[trigger] is_rk4_step(
                ar,
                integ.hamiltonian@,
                integ.lindblad_ops@,
                n,
                prev,
                dt,
                next,
            );
        assert(dt.finite());
        lemma_step_at_rest(ar, integ.lindblad_ops@, n, prev, dt, next);
        assert forall|i: int, j: int| 0 <= i < n && 0 <= j < n implies same_number(
            #[trigger] next[i][j],
            rho@[i][j],
        ) by {
            assert(same_number(next[i][j], prev[i][j]));
            assert(same_number(prev[i][j], rho@[i][j]));
        }
    }
}

/// Without a Hamiltonian and without dissipation the integrator leaves a
/// finite density matrix unchanged at every time point, as numbers: for a
/// supplier that keeps zeros, on a time grid whose steps are finite. A
/// zero of the state may change its sign.
pub proof fn lemma_state_at_rest_is_kept<A: Arithmetic>(
    ar: &A,
    integ: Rk4Integrator,
    rho: Matrix,
    times: Seq<Real>,
    res: OdeResult,
)
    requires
        keeps_zero(ar),
        has_finite_steps(ar, times),
        rho.wf(),
        rho.is_square(),
        is_finite_grid(rho@, rho.nrows()),
        integ.hamiltonian@ == zero_grid(rho.nrows(), rho.nrows()),
        integ.hamiltonian.ncols() == rho.nrows(),
        integ.lindblad_ops@.len() == 0,
        is_integration(ar, integ, rho, times, Ok::<OdeResult, EngineError>(res)),
    ensures
        res.states@.len() == times.len(),
        forall|k: int|
            0 <= k < times.len() ==> same_grid((#[trigger] res.states@[k])@, rho@, rho.nrows()),
{
    let n = rho.nrows();
    assert(integ.hamiltonian.nrows() == n) by {
        assert(integ.hamiltonian@.len() == n);
    }
    assert(integ.fits(n));
    assert forall|k: int| 0 <= k < times.len() implies same_grid(
        (#[trigger] res.states@[k])@,
        rho@,
        rho.nrows(),
    ) by {
        lemma_states_at_rest(ar, integ, rho, times, res, k);
    }
}

/// The supplier's arithmetic on ones: a finite number times one is that
/// number; a zero plus a finite number is that number; and the exponential
/// of zero is one.
pub open spec fn keeps_one<A: Arithmetic>(ar: &A) -> bool {
    &&& forall|x: Complex, y: Complex, p: Complex| #[trigger]
        is_product(ar, x, y, p) && is_finite(x) && same_number(
            y,
            embed(Real { bits: ONE_BITS }),
        ) ==> same_number(p, x)
    &&& forall|x: Complex, y: Complex, r: Complex| #[trigger]
        is_sum(ar, x, y, r) && is_nothing(x) && is_finite(y) ==> same_number(r, y)
    &&& forall|x: Real, w: Real| #[trigger]
        is_real_exp(ar, x, w) && x.magnitude() == 0 ==> w == (Real { bits: ONE_BITS })
}

/// The eigensolver decomposes `mat`, of dimension `n`, into eigenvalues
/// that are zeros and the identity as matrix of eigenvectors.
pub open spec fn solves_zero<A: Arithmetic>(ar: &A, mat: Matrix, n: nat) -> bool {
    forall|d: Option<(Vec<Real>, Vec<Vec<Complex>>)>| #[trigger]
        is_decomposition(ar, mat.data, d) ==> decomposition_fits(d, n) && same_grid(
            grid_of(d->Some_0.1),
            identity_grid(n),
            n,
        ) && forall|k: int| 0 <= k < n ==> (#[trigger] d->Some_0.0@[k]).magnitude() == 0
}

/// What the first `m` terms of element `(i, j)` of `V diag(1) V†` add up
/// to, for `V` the identity: one once the row's own place is passed on the
/// diagonal, and zero else.
pub open spec fn identity_so_far(i: int, j: int, m: nat) -> Complex {
    if i == j && i < m {
        embed(Real { bits: ONE_BITS })
    } else {
        complex_zero()
    }
}

proof fn lemma_identity_rebuilt<A: Arithmetic>(
    ar: &A,
    vectors: Seq<Seq<Complex>>,
    weights: Seq<Complex>,
    n: nat,
    i: int,
    j: int,
    m: nat,
    r: Complex,
)
    requires
        keeps_zero(ar),
        keeps_one(ar),
        same_grid(vectors, identity_grid(n), n),
        weights.len() == n,
        forall|k: int| 0 <= k < n ==> #[trigger] weights[k] == embed(Real { bits: ONE_BITS }),
        0 <= i < n,
        0 <= j < n,
        m <= n,
        is_weighted_dot(ar, vectors[i], weights, vectors[j], m, r),
    ensures
        same_number(r, identity_so_far(i, j, m)),
    decreases m,
{
    if m > 0 {
        let k = m - 1;
        let (acc, q) = choose|acc: Complex, q: Complex|
            is_weighted_dot(ar, vectors[i], weights, vectors[j], (m - 1) as nat, acc)
                && is_weighted_term(ar, vectors[i][m - 1], weights[m - 1], vectors[j][m - 1], q)
                && #[trigger] is_sum(ar, acc, q, r);
        lemma_identity_rebuilt(ar, vectors, weights, n, i, j, (m - 1) as nat, acc);
        let x = vectors[i][k];
        let y = vectors[j][k];
        let p = choose|p: Complex|
            is_product(ar, x, weights[k], p) && #[trigger] is_product(ar, p, y.conjugate(), q);
        assert(same_number(x, identity_grid(n)[i][k]));
        assert(same_number(y, identity_grid(n)[j][k]));
        assert(weights[k] == embed(Real { bits: ONE_BITS }));
        assert(same_number(p, x));
        if i == k && j == k {
            assert(same_number(y.conjugate(), embed(Real { bits: ONE_BITS })));
            assert(same_number(q, p));
            assert(is_nothing(acc));
            assert(same_number(r, q));
        } else {
            assert(is_finite(p) && is_finite(y.conjugate()));
            assert(is_nothing(p) || is_nothing(y.conjugate()));
            assert(is_nothing(q));
            assert(same_number(r, acc));
        }
    }
}

/// The exponential of the zero matrix is the identity of its dimension, as
/// numbers: for a supplier that keeps zeros and ones, whose eigensolver
/// gives for this matrix eigenvalues that are zeros and the identity as
/// eigenvectors.
pub proof fn lemma_exponential_of_zero<A: Arithmetic>(
    ar: &A,
    mat: Matrix,
    r: Result<Matrix, EngineError>,
)
    requires
        mat.wf(),
        mat.is_square(),
        mat@ == zero_grid(mat.nrows(), mat.nrows()),
        keeps_zero(ar),
        keeps_one(ar),
        solves_zero(ar, mat, mat.nrows()),
        is_exp_outcome(ar, mat, r),
    ensures
        r is Ok,
        same_grid(r->Ok_0@, identity_grid(mat.nrows()), mat.nrows()),
{
    let n = mat.nrows();
    assert(is_matrix_exponential(ar, mat, r));
    let d = choose|d: Option<(Vec<Real>, Vec<Vec<Complex>>)>| #[trigger]
        is_decomposition(ar, mat.data, d) && if decomposition_fits(d, mat.nrows()) {
            r is Ok && r->Ok_0.wf() && r->Ok_0.nrows() == mat.nrows() && r->Ok_0.ncols()
                == mat.nrows() && is_spectral_exponential(
                ar,
                d->Some_0.0@,
                grid_of(d->Some_0.1),
                mat.nrows(),
                r->Ok_0@,
            )
        } else {
            r == Err::<Matrix, EngineError>(
                EngineError::ExecutionError(ExecutionFault::DecompositionFailed),
            )
        };
    assert(decomposition_fits(d, n));
    let values = d->Some_0.0@;
    let vectors = grid_of(d->Some_0.1);
    let out = r->Ok_0@;
    let weights = choose|weights: Seq<Complex>| #[trigger]
        is_exponentials(ar, values, weights) && out.len() == n && rectangular(out, n) && forall|
            i: int,
            j: int,
        |
            0 <= i < n && 0 <= j < n ==> #[trigger] is_weighted_dot(
                ar,
                vectors[i],
                weights,
                vectors[j],
                n,
                out[i][j],
            );
    assert forall|k: int| 0 <= k < n implies #[trigger] weights[k] == embed(
        Real { bits: ONE_BITS },
    ) by {
        assert(values[k].magnitude() == 0);
        assert(is_real_exp(ar, values[k], weights[k].re));
        assert(weights[k].im == (Real { bits: 0 }));
    }
    assert forall|i: int, j: int| 0 <= i < n && 0 <= j < n implies same_number(
        #[trigger] out[i][j],
        identity_grid(n)[i][j],
    ) by {
        assert(is_weighted_dot(ar, vectors[i], weights, vectors[j], n, out[i][j]));
        lemma_identity_rebuilt(ar, vectors, weights, n, i, j, n, out[i][j]);
    }
}

} // verus!
