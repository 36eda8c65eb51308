//! The two integrators: a fixed-step fourth-order Runge-Kutta scheme for the
//! Lindblad master equation, and a stepper for unitary evolution under a
//! constant Hamiltonian.

use crate::arith::{is_real_difference, is_real_quotient, Arithmetic};
use crate::error::{EngineError, ExecutionFault, ValidationFault};
use crate::kernels::{
    apply_unitary_ket, dagger, is_conjugation, is_exp_outcome, is_ket_application,
    is_matrix_exponential, matrix_exp,
};
use crate::matrix::{
    dagger_of, is_matrix_difference, is_matrix_product, is_matrix_sum,
    is_matrix_vector_product, is_scaled, zero_grid, Matrix,
};
use crate::scalar::{Complex, Real};
use crate::typechecker::Shape;
use vstd::prelude::*;

verus! {

/// Bit pattern of `2.0`.
pub const TWO_BITS: u64 = 0x4000_0000_0000_0000;

/// Bit pattern of `6.0`.
pub const SIX_BITS: u64 = 0x4018_0000_0000_0000;

/// Bit pattern of `0.5`.
pub const HALF_BITS: u64 = 0x3fe0_0000_0000_0000;

/// Bit pattern of `-1.0`.
pub const MINUS_ONE_BITS: u64 = 0xbff0_0000_0000_0000;

/// A trajectory: one state per time point.
pub struct OdeResult {
    pub times: Vec<Real>,
    pub states: Vec<Matrix>,
}

/// The integrator of `dρ/dt = -i[H,ρ] + Σ γ (L ρ L† - ½{L†L, ρ})`.
pub struct Rk4Integrator {
    pub hamiltonian: Matrix,
    /// The dissipation operators `L`, each with its rate `γ`.
    pub lindblad_ops: Vec<(Matrix, Real)>,
}

/// A real number as a complex one.
pub open spec fn embed(x: Real) -> Complex {
    Complex { re: x, im: Real { bits: 0 } }
}

/// The number `-i`.
pub open spec fn minus_i() -> Complex {
    Complex { re: Real { bits: 0 }, im: Real { bits: MINUS_ONE_BITS } }
}

/// `u` is `-i (H ρ - ρ H)` added to the zero matrix.
pub open spec fn is_unitary_part<A: Arithmetic>(
    ar: &A,
    h: Seq<Seq<Complex>>,
    rho: Seq<Seq<Complex>>,
    n: nat,
    u: Seq<Seq<Complex>>,
) -> bool {
    exists|
        h_rho: Seq<Seq<Complex>>,
        rho_h: Seq<Seq<Complex>>,
        comm: Seq<Seq<Complex>>,
        turned: Seq<Seq<Complex>>,
    |
        #![trigger is_matrix_difference(ar, h_rho, rho_h, comm), is_scaled(ar, comm, minus_i(), turned)]
        is_matrix_product(ar, h, rho, n, h_rho) && is_matrix_product(ar, rho, h, n, rho_h)
            && is_matrix_difference(ar, h_rho, rho_h, comm) && is_scaled(
            ar,
            comm,
            minus_i(),
            turned,
        ) && is_matrix_sum(ar, zero_grid(n, n), turned, u)
}

/// `a` is the anticommutator `(L†L) ρ + ρ (L†L)`.
pub open spec fn is_damping<A: Arithmetic>(
    ar: &A,
    l: Seq<Seq<Complex>>,
    rho: Seq<Seq<Complex>>,
    n: nat,
    a: Seq<Seq<Complex>>,
) -> bool {
    exists|gram: Seq<Seq<Complex>>, left: Seq<Seq<Complex>>, right: Seq<Seq<Complex>>|
        #![trigger is_matrix_product(ar, gram, rho, n, left), is_matrix_sum(ar, left, right, a)]
        is_matrix_product(ar, dagger_of(l, n), l, n, gram) && is_matrix_product(
            ar,
            gram,
            rho,
            n,
            left,
        ) && is_matrix_product(ar, rho, gram, n, right) && is_matrix_sum(ar, left, right, a)
}

/// `d` is the dissipator `γ (L ρ L† - ½ {L†L, ρ})`.
pub open spec fn is_dissipator<A: Arithmetic>(
    ar: &A,
    l: Seq<Seq<Complex>>,
    gamma: Real,
    rho: Seq<Seq<Complex>>,
    n: nat,
    d: Seq<Seq<Complex>>,
) -> bool {
    exists|
        jump: Seq<Seq<Complex>>,
        anti: Seq<Seq<Complex>>,
        halved: Seq<Seq<Complex>>,
        net: Seq<Seq<Complex>>,
    |
        #![trigger is_scaled(ar, anti, embed(Real { bits: HALF_BITS }), halved), is_matrix_difference(ar, jump, halved, net)]
        is_conjugation(ar, l, rho, n, jump) && is_damping(ar, l, rho, n, anti) && is_scaled(
            ar,
            anti,
            embed(Real { bits: HALF_BITS }),
            halved,
        ) && is_matrix_difference(ar, jump, halved, net) && is_scaled(ar, net, embed(gamma), d)
}

/// `d` is the right-hand side of the master equation at `rho`, with the
/// dissipators of the first `count` operators added in their order.
pub open spec fn is_derivative_upto<A: Arithmetic>(
    ar: &A,
    h: Seq<Seq<Complex>>,
    ops: Seq<(Matrix, Real)>,
    rho: Seq<Seq<Complex>>,
    n: nat,
    count: nat,
    d: Seq<Seq<Complex>>,
) -> bool
    decreases count,
{
    if count == 0 {
        is_unitary_part(ar, h, rho, n, d)
    } else {
        exists|before: Seq<Seq<Complex>>, term: Seq<Seq<Complex>>|
            is_derivative_upto(ar, h, ops, rho, n, (count - 1) as nat, before) && is_dissipator(
                ar,
                ops[count - 1].0@,
                ops[count - 1].1,
                rho,
                n,
                term,
            ) && #[trigger] is_matrix_sum(ar, before, term, d)
    }
}

/// `d` is the right-hand side of the master equation at `rho`.
pub open spec fn is_derivative<A: Arithmetic>(
    ar: &A,
    h: Seq<Seq<Complex>>,
    ops: Seq<(Matrix, Real)>,
    rho: Seq<Seq<Complex>>,
    n: nat,
    d: Seq<Seq<Complex>>,
) -> bool {
    is_derivative_upto(ar, h, ops, rho, n, ops.len(), d)
}

/// `r` is `rho + factor * k`.
pub open spec fn is_advance<A: Arithmetic>(
    ar: &A,
    rho: Seq<Seq<Complex>>,
    k: Seq<Seq<Complex>>,
    factor: Complex,
    r: Seq<Seq<Complex>>,
) -> bool {
    exists|step: Seq<Seq<Complex>>|
        is_scaled(ar, k, factor, step) && #[trigger] is_matrix_sum(ar, rho, step, r)
}

/// `next` is the derivative at `rho + factor * k`.
pub open spec fn is_stage<A: Arithmetic>(
    ar: &A,
    h: Seq<Seq<Complex>>,
    ops: Seq<(Matrix, Real)>,
    rho: Seq<Seq<Complex>>,
    k: Seq<Seq<Complex>>,
    factor: Complex,
    n: nat,
    next: Seq<Seq<Complex>>,
) -> bool {
    exists|mid: Seq<Seq<Complex>>|
        is_advance(ar, rho, k, factor, mid) && #[trigger] is_derivative(ar, h, ops, mid, n, next)
}

/// `w` is `((k1 + 2 k2) + 2 k3) + k4`.
pub open spec fn is_weighting<A: Arithmetic>(
    ar: &A,
    k1: Seq<Seq<Complex>>,
    k2: Seq<Seq<Complex>>,
    k3: Seq<Seq<Complex>>,
    k4: Seq<Seq<Complex>>,
    w: Seq<Seq<Complex>>,
) -> bool {
    exists|
        twice2: Seq<Seq<Complex>>,
        sum12: Seq<Seq<Complex>>,
        twice3: Seq<Seq<Complex>>,
        sum123: Seq<Seq<Complex>>,
    |
        #![trigger is_matrix_sum(ar, k1, twice2, sum12), is_matrix_sum(ar, sum12, twice3, sum123)]
        is_scaled(ar, k2, embed(Real { bits: TWO_BITS }), twice2) && is_matrix_sum(
            ar,
            k1,
            twice2,
            sum12,
        ) && is_scaled(ar, k3, embed(Real { bits: TWO_BITS }), twice3) && is_matrix_sum(
            ar,
            sum12,
            twice3,
            sum123,
        ) && is_matrix_sum(ar, sum123, k4, w)
}

/// `next` is one classic Runge-Kutta step of size `dt` from `rho`: the
/// derivative at the state, at two midpoint estimates and at the endpoint
/// estimate, weighted 1, 2, 2, 1 and scaled by `dt / 6`.
pub open spec fn is_rk4_step<A: Arithmetic>(
    ar: &A,
    h: Seq<Seq<Complex>>,
    ops: Seq<(Matrix, Real)>,
    n: nat,
    rho: Seq<Seq<Complex>>,
    dt: Real,
    next: Seq<Seq<Complex>>,
) -> bool {
    exists|
        half: Real,
        sixth: Real,
        k1: Seq<Seq<Complex>>,
        k2: Seq<Seq<Complex>>,
        k3: Seq<Seq<Complex>>,
        k4: Seq<Seq<Complex>>,
        w: Seq<Seq<Complex>>,
    |
        #![trigger is_stage(ar, h, ops, rho, k1, embed(half), n, k2), is_stage(ar, h, ops, rho, k3, embed(dt), n, k4), is_advance(ar, rho, w, embed(sixth), next)]
        is_real_quotient(ar, dt, Real { bits: TWO_BITS }, half) && is_real_quotient(
            ar,
            dt,
            Real { bits: SIX_BITS },
            sixth,
        ) && is_derivative(ar, h, ops, rho, n, k1) && is_stage(
            ar,
            h,
            ops,
            rho,
            k1,
            embed(half),
            n,
            k2,
        ) && is_stage(ar, h, ops, rho, k2, embed(half), n, k3) && is_stage(
            ar,
            h,
            ops,
            rho,
            k3,
            embed(dt),
            n,
            k4,
        ) && is_weighting(ar, k1, k2, k3, k4, w) && is_advance(ar, rho, w, embed(sixth), next)
}

/// The step from one time point to the next is positive, and `next` is one
/// Runge-Kutta step of that size from `prev`.
pub open spec fn is_rk4_transition<A: Arithmetic>(
    ar: &A,
    h: Seq<Seq<Complex>>,
    ops: Seq<(Matrix, Real)>,
    n: nat,
    from: Real,
    to: Real,
    prev: Seq<Seq<Complex>>,
    next: Seq<Seq<Complex>>,
) -> bool {
    exists|dt: Real|
        is_real_difference(ar, to, from, dt) && !dt.le(Real { bits: 0 }) && #[trigger] is_rk4_step(
            ar,
            h,
            ops,
            n,
            prev,
            dt,
            next,
        )
}

/// The step from time point `i - 1` to time point `i` is zero or negative.
pub open spec fn step_not_positive<A: Arithmetic>(ar: &A, times: Seq<Real>, i: int) -> bool {
    exists|dt: Real| #[trigger]
        is_real_difference(ar, times[i], times[i - 1], dt) && dt.le(Real { bits: 0 })
}

/// What [`Rk4Integrator::integrate`] gives: an empty grid is an error; so is a
/// state that is not square, or an operator that does not fit it; else the
/// trajectory, one Runge-Kutta step from each state to the next, or the
/// error that a step is not positive.
pub open spec fn is_integration<A: Arithmetic>(
    ar: &A,
    integ: Rk4Integrator,
    initial_rho: Matrix,
    times: Seq<Real>,
    r: Result<OdeResult, EngineError>,
) -> bool {
    &&& times.len() == 0 ==> r == Err::<OdeResult, EngineError>(
            EngineError::ValidationError(ValidationFault::EmptyTimeGrid),
        )
    &&& times.len() > 0 && !initial_rho.is_square() ==> r == Err::<OdeResult, EngineError>(
            EngineError::DimensionMismatch {
                expected: Shape::Matrix(
                    initial_rho.nrows() as usize,
                    initial_rho.nrows() as usize,
                ),
                actual: initial_rho.shape(),
            },
        )
    &&& times.len() > 0 && initial_rho.is_square() && !integ.fits(initial_rho.nrows()) ==> r
            == Err::<OdeResult, EngineError>(
            EngineError::DimensionMismatch {
                expected: Shape::Matrix(
                    initial_rho.nrows() as usize,
                    initial_rho.nrows() as usize,
                ),
                actual: integ.misfit(initial_rho.nrows())->Some_0,
            },
        )
    &&& times.len() > 0 && initial_rho.is_square() && integ.fits(initial_rho.nrows())
            ==> match r {
            Ok(res) => {
                &&& res.times@ == times
                &&& res.states@.len() == times.len()
                &&& res.states@[0]@ == initial_rho@
                &&& forall|i: int|
                    0 <= i < res.states@.len() ==> (#[trigger] res.states@[i]).wf()
                        && res.states@[i].nrows() == initial_rho.nrows()
                        && res.states@[i].ncols() == initial_rho.nrows()
                &&& forall|i: int|
                    1 <= i < times.len() ==> #[trigger] is_rk4_transition(
                        ar,
                        integ.hamiltonian@,
                        integ.lindblad_ops@,
                        initial_rho.nrows(),
                        times[i - 1],
                        times[i],
                        res.states@[i - 1]@,
                        res.states@[i]@,
                    )
            },
            Err(e) => e == EngineError::ValidationError(ValidationFault::TimeGridNotIncreasing)
                && exists|i: int|
                1 <= i < times.len() && #[trigger] step_not_positive(ar, times, i),
        }
}

impl Rk4Integrator {
    /// The Hamiltonian and every dissipation operator are well-formed
    /// matrices.
    pub open spec fn wf(&self) -> bool {
        &&& self.hamiltonian.wf()
        &&& forall|k: int|
            0 <= k < self.lindblad_ops@.len() ==> (#[trigger] self.lindblad_ops@[k]).0.wf()
    }

    /// The Hamiltonian and every dissipation operator are `n` by `n`.
    pub open spec fn fits(&self, n: nat) -> bool {
        &&& self.hamiltonian.nrows() == n
        &&& self.hamiltonian.ncols() == n
        &&& forall|k: int|
            0 <= k < self.lindblad_ops@.len() ==> (#[trigger] self.lindblad_ops@[k]).0.nrows()
                == n && self.lindblad_ops@[k].0.ncols() == n
    }

    /// The integrator for a Hamiltonian and dissipation operators with their
    /// rates.
    pub fn new(hamiltonian: Matrix, lindblad_ops: Vec<(Matrix, Real)>) -> (r: Rk4Integrator)
        ensures
            r.hamiltonian == hamiltonian,
            r.lindblad_ops == lindblad_ops,
    {
        Rk4Integrator { hamiltonian, lindblad_ops }
    }

    /// The shape of the first matrix among the operators at or after `from`
    /// that is not `n` by `n`.
    pub open spec fn operator_misfit(&self, n: nat, from: int) -> Option<Shape>
        decreases self.lindblad_ops@.len() - from,
    {
        if from < 0 || from >= self.lindblad_ops@.len() {
            None
        } else if self.lindblad_ops@[from].0.nrows() != n || self.lindblad_ops@[from].0.ncols()
            != n {
            Some(self.lindblad_ops@[from].0.shape())
        } else {
            self.operator_misfit(n, from + 1)
        }
    }

    /// The shape of the first matrix that is not `n` by `n`: the Hamiltonian,
    /// then the operators in their order.
    pub open spec fn misfit(&self, n: nat) -> Option<Shape> {
        if self.hamiltonian.nrows() != n || self.hamiltonian.ncols() != n {
            Some(self.hamiltonian.shape())
        } else {
            self.operator_misfit(n, 0)
        }
    }

    /// The shape of the first matrix that is not `n` by `n`, if there is one.
    pub fn find_misfit(&self, n: usize) -> (r: Option<Shape>)
        ensures
            r == self.misfit(n as nat),
            r is None <==> self.fits(n as nat),
    {
        if self.hamiltonian.rows() != n || self.hamiltonian.cols() != n {
            return Some(Shape::Matrix(self.hamiltonian.rows(), self.hamiltonian.cols()));
        }
        let mut k: usize = 0;
        while k < self.lindblad_ops.len()
            invariant
                k <= self.lindblad_ops@.len(),
                self.hamiltonian.nrows() == n,
                self.hamiltonian.ncols() == n,
                self.operator_misfit(n as nat, 0) == self.operator_misfit(n as nat, k as int),
                forall|p: int|
                    0 <= p < k ==> (#[trigger] self.lindblad_ops@[p]).0.nrows() == n
                        && self.lindblad_ops@[p].0.ncols() == n,
            decreases self.lindblad_ops@.len() - k,
        {
            let op = &self.lindblad_ops[k].0;
            if op.rows() != n || op.cols() != n {
                return Some(Shape::Matrix(op.rows(), op.cols()));
            }
            k += 1;
        }
        None
    }

    /// Integrates from `initial_rho` over the time grid. The trajectory has
    /// one state per time point and starts with `initial_rho`; each further
    /// state is one Runge-Kutta step from the one before. An empty grid, a
    /// step that is not positive, and operators that do not fit the state
    /// are errors.
    pub fn integrate<A: Arithmetic>(&self, ar: &A, initial_rho: Matrix, times: &Vec<Real>) -> (r:
        Result<OdeResult, EngineError>)
        requires
            self.wf(),
            initial_rho.wf(),
        ensures
            is_integration(ar, *self, initial_rho, times@, r),
    {
        if times.len() == 0 {
            return Err(EngineError::validation_error(ValidationFault::EmptyTimeGrid));
        }
        let n: usize = initial_rho.rows();
        if initial_rho.cols() != n {
            return Err(
                EngineError::dimension_mismatch(
                    Shape::Matrix(n, n),
                    Shape::Matrix(n, initial_rho.cols()),
                ),
            );
        }
        match self.find_misfit(n) {
            Some(shape) => {
                return Err(EngineError::dimension_mismatch(Shape::Matrix(n, n), shape));
            },
            None => {},
        }
        let mut states: Vec<Matrix> = Vec::new();
        let mut rho = initial_rho.duplicate();
        states.push(initial_rho);
        let mut i: usize = 1;
        while i < times.len()
            invariant
                1 <= i <= times@.len(),
                self.wf(),
                self.fits(n as nat),
                n == initial_rho.nrows(),
                initial_rho.is_square(),
                rho.wf(),
                rho.nrows() == n,
                rho.ncols() == n,
                states@.len() == i,
                states@[0]@ == initial_rho@,
                rho@ == states@[i - 1]@,
                forall|p: int|
                    0 <= p < i ==> (#[trigger] states@[p]).wf() && states@[p].nrows() == n
                        && states@[p].ncols() == n,
                forall|p: int|
                    1 <= p < i ==> #[trigger] is_rk4_transition(
                        ar,
                        self.hamiltonian@,
                        self.lindblad_ops@,
                        n as nat,
                        times@[p - 1],
                        times@[p],
                        states@[p - 1]@,
                        states@[p]@,
                    ),
            decreases times@.len() - i,
        {
            let dt = ar.sub_real(times[i], times[i - 1]);
            if dt.less_or_equal(Real::zero()) {
                assert(is_real_difference(ar, times@[i as int], times@[i - 1], dt) && dt.le(
                    Real { bits: 0 },
                ));
                assert(step_not_positive(ar, times@, i as int));
                return Err(EngineError::validation_error(ValidationFault::TimeGridNotIncreasing));
            }
            let next = self.step_rk4(ar, &rho, dt);
            assert(is_real_difference(ar, times@[i as int], times@[i - 1], dt) && !dt.le(
                Real { bits: 0 },
            ) && is_rk4_step(
                ar,
                self.hamiltonian@,
                self.lindblad_ops@,
                n as nat,
                rho@,
                dt,
                next@,
            ));
            let ghost before = states@;
            rho = next.duplicate();
            states.push(next);
            assert(forall|p: int| 0 <= p < i ==> states@[p] == before[p]);
            i += 1;
        }
        let mut copied: Vec<Real> = Vec::new();
        let mut k: usize = 0;
        while k < times.len()
            invariant
                k <= times@.len(),
                copied@ == times@.take(k as int),
            decreases times@.len() - k,
        {
            copied.push(times[k]);
            assert(copied@ =~= times@.take(k as int + 1));
            k += 1;
        }
        assert(copied@ =~= times@);
        Ok(OdeResult { times: copied, states })
    }

    /// One Runge-Kutta step of size `dt` from `rho`.
    pub fn step_rk4<A: Arithmetic>(&self, ar: &A, rho: &Matrix, dt: Real) -> (next: Matrix)
        requires
            self.wf(),
            rho.wf(),
            rho.is_square(),
            self.fits(rho.nrows()),
        ensures
            next.wf(),
            next.nrows() == rho.nrows(),
            next.ncols() == rho.nrows(),
            is_rk4_step(
                ar,
                self.hamiltonian@,
                self.lindblad_ops@,
                rho.nrows(),
                rho@,
                dt,
                next@,
            ),
    {
        let ghost n = rho.nrows();
        let ghost h = self.hamiltonian@;
        let ghost ops = self.lindblad_ops@;
        let half = ar.div_real(dt, Real::from_bits(TWO_BITS));
        let sixth = ar.div_real(dt, Real::from_bits(SIX_BITS));
        let k1 = self.lindblad_derivative(ar, rho);
        let k2 = self.stage(ar, rho, &k1, Complex::from_real(half));
        let k3 = self.stage(ar, rho, &k2, Complex::from_real(half));
        let k4 = self.stage(ar, rho, &k3, Complex::from_real(dt));
        let two = Complex::from_real(Real::from_bits(TWO_BITS));
        let twice2 = k2.scaled(ar, two);
        let sum12 = sum_of(ar, &k1, &twice2);
        let twice3 = k3.scaled(ar, two);
        let sum123 = sum_of(ar, &sum12, &twice3);
        let w = sum_of(ar, &sum123, &k4);
        assert(is_scaled(ar, k2@, embed(Real { bits: TWO_BITS }), twice2@) && is_matrix_sum(
            ar,
            k1@,
            twice2@,
            sum12@,
        ) && is_scaled(ar, k3@, embed(Real { bits: TWO_BITS }), twice3@) && is_matrix_sum(
            ar,
            sum12@,
            twice3@,
            sum123@,
        ) && is_matrix_sum(ar, sum123@, k4@, w@));
        assert(is_weighting(ar, k1@, k2@, k3@, k4@, w@));
        let next = advance(ar, rho, &w, Complex::from_real(sixth));
        assert(is_real_quotient(ar, dt, Real { bits: TWO_BITS }, half) && is_real_quotient(
            ar,
            dt,
            Real { bits: SIX_BITS },
            sixth,
        ) && is_derivative(ar, h, ops, rho@, n, k1@) && is_stage(
            ar,
            h,
            ops,
            rho@,
            k1@,
            embed(half),
            n,
            k2@,
        ) && is_stage(ar, h, ops, rho@, k2@, embed(half), n, k3@) && is_stage(
            ar,
            h,
            ops,
            rho@,
            k3@,
            embed(dt),
            n,
            k4@,
        ) && is_weighting(ar, k1@, k2@, k3@, k4@, w@) && is_advance(
            ar,
            rho@,
            w@,
            embed(sixth),
            next@,
        ));
        next
    }

    /// The derivative at `rho + factor * k`.
    fn stage<A: Arithmetic>(&self, ar: &A, rho: &Matrix, k: &Matrix, factor: Complex) -> (next:
        Matrix)
        requires
            self.wf(),
            rho.wf(),
            rho.is_square(),
            self.fits(rho.nrows()),
            k.wf(),
            k.nrows() == rho.nrows(),
            k.ncols() == rho.nrows(),
        ensures
            next.wf(),
            next.nrows() == rho.nrows(),
            next.ncols() == rho.nrows(),
            is_stage(
                ar,
                self.hamiltonian@,
                self.lindblad_ops@,
                rho@,
                k@,
                factor,
                rho.nrows(),
                next@,
            ),
    {
        let mid = advance(ar, rho, k, factor);
        let next = self.lindblad_derivative(ar, &mid);
        assert(is_advance(ar, rho@, k@, factor, mid@) && is_derivative(
            ar,
            self.hamiltonian@,
            self.lindblad_ops@,
            mid@,
            rho.nrows(),
            next@,
        ));
        next
    }

    /// The right-hand side of the master equation at `rho`:
    /// `-i[H,ρ] + Σ γ (L ρ L† - ½{L†L, ρ})`, the operators in their order.
    pub fn lindblad_derivative<A: Arithmetic>(&self, ar: &A, rho: &Matrix) -> (d: Matrix)
        requires
            self.wf(),
            rho.wf(),
            rho.is_square(),
            self.fits(rho.nrows()),
        ensures
            d.wf(),
            d.nrows() == rho.nrows(),
            d.ncols() == rho.nrows(),
            is_derivative(ar, self.hamiltonian@, self.lindblad_ops@, rho@, rho.nrows(), d@),
    {
        let n: usize = rho.rows();
        let ghost h = self.hamiltonian@;
        let ghost ops = self.lindblad_ops@;
        let h_rho = product_of(ar, &self.hamiltonian, rho);
        let rho_h = product_of(ar, rho, &self.hamiltonian);
        let comm = difference_of(ar, &h_rho, &rho_h);
        let turned = comm.scaled(
            ar,
            Complex::new(Real::zero(), Real::from_bits(MINUS_ONE_BITS)),
        );
        let zeros = Matrix::zeros(n, n);
        let mut drho = sum_of(ar, &zeros, &turned);
        assert(is_matrix_product(ar, h, rho@, n as nat, h_rho@) && is_matrix_product(
            ar,
            rho@,
            h,
            n as nat,
            rho_h@,
        ) && is_matrix_difference(ar, h_rho@, rho_h@, comm@) && is_scaled(
            ar,
            comm@,
            minus_i(),
            turned@,
        ) && is_matrix_sum(ar, zero_grid(n as nat, n as nat), turned@, drho@));
        assert(is_unitary_part(ar, h, rho@, n as nat, drho@));
        let mut k: usize = 0;
        while k < self.lindblad_ops.len()
            invariant
                k <= self.lindblad_ops@.len(),
                self.wf(),
                rho.wf(),
                rho.is_square(),
                self.fits(rho.nrows()),
                n == rho.nrows(),
                h == self.hamiltonian@,
                ops == self.lindblad_ops@,
                drho.wf(),
                drho.nrows() == n,
                drho.ncols() == n,
                is_derivative_upto(ar, h, ops, rho@, n as nat, k as nat, drho@),
            decreases self.lindblad_ops@.len() - k,
        {
            let l_op = &self.lindblad_ops[k].0;
            let gamma = self.lindblad_ops[k].1;
            let term = dissipator(ar, l_op, gamma, rho);
            let next = sum_of(ar, &drho, &term);
            assert(is_derivative_upto(ar, h, ops, rho@, n as nat, k as nat, drho@)
                && is_dissipator(ar, ops[k as int].0@, ops[k as int].1, rho@, n as nat, term@)
                && is_matrix_sum(ar, drho@, term@, next@));
            drho = next;
            k += 1;
        }
        drho
    }
}

/// The product of two square matrices of one dimension.
fn product_of<A: Arithmetic>(ar: &A, a: &Matrix, b: &Matrix) -> (c: Matrix)
    requires
        a.wf(),
        b.wf(),
        a.ncols() == b.nrows(),
    ensures
        c.wf(),
        c.nrows() == a.nrows(),
        c.ncols() == b.ncols(),
        is_matrix_product(ar, a@, b@, b.ncols(), c@),
{
    match a.times(ar, b) {
        Some(c) => c,
        None => vstd::pervasive::unreached(),
    }
}

/// The sum of two matrices of one shape.
fn sum_of<A: Arithmetic>(ar: &A, a: &Matrix, b: &Matrix) -> (c: Matrix)
    requires
        a.wf(),
        b.wf(),
        a.nrows() == b.nrows(),
        a.ncols() == b.ncols(),
    ensures
        c.wf(),
        c.nrows() == a.nrows(),
        c.ncols() == a.ncols(),
        is_matrix_sum(ar, a@, b@, c@),
{
    match a.plus(ar, b) {
        Some(c) => c,
        None => vstd::pervasive::unreached(),
    }
}

/// The difference of two matrices of one shape.
fn difference_of<A: Arithmetic>(ar: &A, a: &Matrix, b: &Matrix) -> (c: Matrix)
    requires
        a.wf(),
        b.wf(),
        a.nrows() == b.nrows(),
        a.ncols() == b.ncols(),
    ensures
        c.wf(),
        c.nrows() == a.nrows(),
        c.ncols() == a.ncols(),
        is_matrix_difference(ar, a@, b@, c@),
{
    match a.minus(ar, b) {
        Some(c) => c,
        None => vstd::pervasive::unreached(),
    }
}

/// The matrix `rho + factor * k`.
fn advance<A: Arithmetic>(ar: &A, rho: &Matrix, k: &Matrix, factor: Complex) -> (r: Matrix)
    requires
        rho.wf(),
        k.wf(),
        k.nrows() == rho.nrows(),
        k.ncols() == rho.ncols(),
    ensures
        r.wf(),
        r.nrows() == rho.nrows(),
        r.ncols() == rho.ncols(),
        is_advance(ar, rho@, k@, factor, r@),
{
    let step = k.scaled(ar, factor);
    let r = sum_of(ar, rho, &step);
    assert(is_scaled(ar, k@, factor, step@) && is_matrix_sum(ar, rho@, step@, r@));
    r
}

/// The dissipator `γ (L ρ L† - ½ {L†L, ρ})` of one operator.
fn dissipator<A: Arithmetic>(ar: &A, l_op: &Matrix, gamma: Real, rho: &Matrix) -> (d: Matrix)
    requires
        l_op.wf(),
        rho.wf(),
        rho.is_square(),
        l_op.nrows() == rho.nrows(),
        l_op.ncols() == rho.nrows(),
    ensures
        d.wf(),
        d.nrows() == rho.nrows(),
        d.ncols() == rho.nrows(),
        is_dissipator(ar, l_op@, gamma, rho@, rho.nrows(), d@),
{
    let ghost n = rho.nrows();
    let l_dagger = dagger(l_op);
    let l_rho = product_of(ar, l_op, rho);
    let jump = product_of(ar, &l_rho, &l_dagger);
    assert(is_matrix_product(ar, l_op@, rho@, n, l_rho@) && is_matrix_product(
        ar,
        l_rho@,
        dagger_of(l_op@, n),
        l_op@.len(),
        jump@,
    ));
    assert(is_conjugation(ar, l_op@, rho@, n, jump@));
    let gram = product_of(ar, &l_dagger, l_op);
    let left = product_of(ar, &gram, rho);
    let right = product_of(ar, rho, &gram);
    let anti = sum_of(ar, &left, &right);
    assert(is_matrix_product(ar, dagger_of(l_op@, n), l_op@, n, gram@) && is_matrix_product(
        ar,
        gram@,
        rho@,
        n,
        left@,
    ) && is_matrix_product(ar, rho@, gram@, n, right@) && is_matrix_sum(
        ar,
        left@,
        right@,
        anti@,
    ));
    assert(is_damping(ar, l_op@, rho@, n, anti@));
    let halved = anti.scaled(ar, Complex::from_real(Real::from_bits(HALF_BITS)));
    let net = difference_of(ar, &jump, &halved);
    let d = net.scaled(ar, Complex::from_real(gamma));
    assert(is_conjugation(ar, l_op@, rho@, n, jump@) && is_damping(ar, l_op@, rho@, n, anti@)
        && is_scaled(ar, anti@, embed(Real { bits: HALF_BITS }), halved@)
        && is_matrix_difference(ar, jump@, halved@, net@) && is_scaled(
        ar,
        net@,
        embed(gamma),
        d@,
    ));
    d
}

/// `next` is `exp(-i H dt) prev` for the step `dt` from one time point to
/// the next: the generator is `H` scaled by `-i dt`, the propagator its
/// matrix exponential.
pub open spec fn is_unitary_transition<A: Arithmetic>(
    ar: &A,
    h: Matrix,
    from: Real,
    to: Real,
    prev: Seq<Complex>,
    next: Seq<Complex>,
) -> bool {
    exists|dt: Real, generator: Matrix, propagator: Matrix|
        #![trigger is_scaled(ar, h@, Complex { re: Real { bits: 0 }, im: dt.negated() }, generator@), is_matrix_exponential(ar, generator, Ok(propagator))]
        is_real_difference(ar, to, from, dt) && generator.wf() && generator.nrows() == h.nrows()
            && generator.ncols() == h.ncols() && is_scaled(
            ar,
            h@,
            Complex { re: Real { bits: 0 }, im: dt.negated() },
            generator@,
        ) && is_matrix_exponential(ar, generator, Ok(propagator)) && is_matrix_vector_product(
            ar,
            propagator@,
            prev,
            next,
        )
}

/// `states` are the states at the first time points: the first is the
/// initial ket, and each further one the propagated state before it.
pub open spec fn are_unitary_states<A: Arithmetic>(
    ar: &A,
    h: Matrix,
    initial_ket: Seq<Complex>,
    times: Seq<Real>,
    states: Seq<Seq<Complex>>,
) -> bool {
    &&& 1 <= states.len() <= times.len()
    &&& states[0] == initial_ket
    &&& forall|i: int|
        1 <= i < states.len() ==> #[trigger] is_unitary_transition(
            ar,
            h,
            times[i - 1],
            times[i],
            states[i - 1],
            states[i],
        )
}

/// The step from the state `prev` with the generator `generator` fails with
/// `e`: the matrix exponential gives this error; or it gives a propagator,
/// and applying that to the state gives this error.
pub open spec fn is_transition_fault<A: Arithmetic>(
    ar: &A,
    generator: Matrix,
    prev: Seq<Complex>,
    e: EngineError,
) -> bool {
    is_exp_outcome(ar, generator, Err::<Matrix, EngineError>(e)) || exists|u: Matrix| #[trigger]
        is_exp_outcome(ar, generator, Ok::<Matrix, EngineError>(u)) && is_ket_application(
            ar,
            u,
            prev,
            Err::<Vec<Complex>, EngineError>(e),
        )
}

/// The step from one time point to the next fails with `e`: with the
/// step `dt` between them and the generator `H` scaled by `-i dt`, the
/// exponential or its application to the state `prev` gives this error.
pub open spec fn is_failed_transition<A: Arithmetic>(
    ar: &A,
    h: Matrix,
    from: Real,
    to: Real,
    prev: Seq<Complex>,
    e: EngineError,
) -> bool {
    exists|dt: Real, generator: Matrix|
        #![trigger is_scaled(ar, h@, Complex { re: Real { bits: 0 }, im: dt.negated() }, generator@)]
        is_real_difference(ar, to, from, dt) && generator.wf() && generator.nrows() == h.nrows()
            && generator.ncols() == h.ncols() && is_scaled(
            ar,
            h@,
            Complex { re: Real { bits: 0 }, im: dt.negated() },
            generator@,
        ) && is_transition_fault(ar, generator, prev, e)
}

/// The evolution fails with `e` at the step that follows the states
/// `done`, which were reached before it.
pub open spec fn evolution_fails<A: Arithmetic>(
    ar: &A,
    h: Matrix,
    initial_ket: Seq<Complex>,
    times: Seq<Real>,
    done: Seq<Seq<Complex>>,
    e: EngineError,
) -> bool {
    &&& are_unitary_states(ar, h, initial_ket, times, done)
    &&& done.len() < times.len()
    &&& is_failed_transition(ar, h, times[done.len() - 1], times[done.len() as int], done.last(), e)
}

/// What [`evolve_unitary`] gives: one state per time point, the first being
/// the initial ket and each further one the propagated state before it.
/// With fewer than two time points nothing is computed. The error is that
/// of the first step that fails, after the steps before it were made: a
/// Hamiltonian that is not square fails the first step with a dimension
/// mismatch, and a ket of the wrong length fails it too.
pub open spec fn is_unitary_evolution<A: Arithmetic>(
    ar: &A,
    hamiltonian: Matrix,
    initial_ket: Seq<Complex>,
    times: Seq<Real>,
    r: Result<Vec<Vec<Complex>>, EngineError>,
) -> bool {
    &&& times.len() <= 1 ==> r is Ok
    &&& times.len() > 1 && !hamiltonian.is_square() ==> r == Err::<
        Vec<Vec<Complex>>,
        EngineError,
        >(
        EngineError::DimensionMismatch {
            expected: Shape::Matrix(
                hamiltonian.nrows() as usize,
                hamiltonian.nrows() as usize,
            ),
            actual: hamiltonian.shape(),
        },
        )
    &&& times.len() > 1 && hamiltonian.is_square() && hamiltonian.ncols() != initial_ket.len()
        ==> r is Err
    &&& match r {
        Ok(states) => {
            &&& states@.len() == times.len()
            &&& times.len() > 0 ==> states@[0]@ == initial_ket
            &&& forall|i: int|
                1 <= i < times.len() ==> #[trigger] is_unitary_transition(
                    ar,
                    hamiltonian,
                    times[i - 1],
                    times[i],
                    states@[i - 1]@,
                    states@[i]@,
                )
        },
        Err(e) => exists|done: Seq<Seq<Complex>>| #[trigger]
            evolution_fails(ar, hamiltonian, initial_ket, times, done, e),
        }
}

/// Evolves a ket under a constant Hamiltonian: for each step `dt` between
/// neighbouring time points the propagator `exp(-i H dt)` is applied to the
/// state before. There is one state per time point, the first being the
/// initial ket. With fewer than two time points nothing is computed and
/// nothing can fail.
pub fn evolve_unitary<A: Arithmetic>(
    ar: &A,
    hamiltonian: &Matrix,
    initial_ket: &Vec<Complex>,
    times: &Vec<Real>,
) -> (r: Result<Vec<Vec<Complex>>, EngineError>)
    requires
        hamiltonian.wf(),
    ensures
        is_unitary_evolution(ar, *hamiltonian, initial_ket@, times@, r),
{
    let mut states: Vec<Vec<Complex>> = Vec::new();
    if times.len() == 0 {
        return Ok(states);
    }
    let mut first: Vec<Complex> = Vec::new();
    let mut c: usize = 0;
    while c < initial_ket.len()
        invariant
            c <= initial_ket@.len(),
            first@ == initial_ket@.take(c as int),
        decreases initial_ket@.len() - c,
    {
        first.push(initial_ket[c]);
        assert(first@ =~= initial_ket@.take(c as int + 1));
        c += 1;
    }
    assert(first@ =~= initial_ket@);
    states.push(first);
    let mut i: usize = 1;
    while i < times.len()
        invariant
            1 <= i <= times@.len(),
            hamiltonian.wf(),
            states@.len() == i,
            states@[0]@ == initial_ket@,
            i > 1 ==> hamiltonian.is_square() && hamiltonian.ncols() == initial_ket@.len(),
            forall|p: int| 0 <= p < i ==> (#[trigger] states@[p])@.len() == initial_ket@.len(),
            forall|p: int|
                1 <= p < i ==> #[trigger] is_unitary_transition(
                    ar,
                    *hamiltonian,
                    times@[p - 1],
                    times@[p],
                    states@[p - 1]@,
                    states@[p]@,
                ),
        decreases times@.len() - i,
    {
        let ghost done = Seq::new(states@.len(), |p: int| states@[p]@);
        assert(are_unitary_states(ar, *hamiltonian, initial_ket@, times@, done));
        let dt = ar.sub_real(times[i], times[i - 1]);
        let generator = hamiltonian.scaled(ar, Complex::new(Real::zero(), dt.neg()));
        assert(is_real_difference(ar, times@[i as int], times@[i - 1], dt) && is_scaled(
            ar,
            hamiltonian@,
            Complex { re: Real { bits: 0 }, im: dt.negated() },
            generator@,
        ));
        let exp = matrix_exp(ar, &generator);
        let propagator = match exp {
            Ok(u) => u,
            Err(e) => {
                assert(is_transition_fault(ar, generator, done.last(), e));
                assert(is_failed_transition(
                    ar,
                    *hamiltonian,
                    times@[done.len() - 1],
                    times@[done.len() as int],
                    done.last(),
                    e,
                ));
                assert(evolution_fails(ar, *hamiltonian, initial_ket@, times@, done, e));
                return Err(e);
            },
        };
        let next = match apply_unitary_ket(ar, &propagator, &states[i - 1]) {
            Ok(w) => w,
            Err(e) => {
                assert(is_exp_outcome(ar, generator, Ok::<Matrix, EngineError>(propagator))
                    && is_ket_application(
                    ar,
                    propagator,
                    done.last(),
                    Err::<Vec<Complex>, EngineError>(e),
                ));
                assert(is_transition_fault(ar, generator, done.last(), e));
                assert(is_failed_transition(
                    ar,
                    *hamiltonian,
                    times@[done.len() - 1],
                    times@[done.len() as int],
                    done.last(),
                    e,
                ));
                assert(evolution_fails(ar, *hamiltonian, initial_ket@, times@, done, e));
                return Err(e);
            },
        };
        assert(is_real_difference(ar, times@[i as int], times@[i - 1], dt) && generator.wf()
            && generator.nrows() == hamiltonian.nrows() && generator.ncols()
            == hamiltonian.ncols() && is_scaled(
            ar,
            hamiltonian@,
            Complex { re: Real { bits: 0 }, im: dt.negated() },
            generator@,
        ) && is_matrix_exponential(ar, generator, Ok(propagator)) && is_matrix_vector_product(
            ar,
            propagator@,
            states@[i - 1]@,
            next@,
        ));
        let ghost before = states@;
        states.push(next);
        assert(forall|p: int| 0 <= p < i ==> states@[p] == before[p]);
        i += 1;
    }
    Ok(states)
}

} // verus!
