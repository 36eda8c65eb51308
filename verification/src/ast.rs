//! Syntax tree of the experiment language.

use crate::arith::{is_count, is_real_product, is_real_sum, Arithmetic};
use crate::scalar::{Complex, Real};
use vstd::prelude::*;

verus! {

/// A whole program: its statements in source order.
#[derive(Debug, PartialEq, Eq)]
pub struct Ast {
    pub statements: Vec<Statement>,
}

/// A top-level statement.
#[derive(Debug, PartialEq, Eq)]
pub enum Statement {
    ConstDecl { name: String, value: Real },
    SymbolDecl { name: String },
    MatrixDecl { name: String, value: MatrixLiteral },
    FunctionDef { name: String, params: Vec<String>, body: Box<Expr> },
    HamiltonianDef { name: String, params: Vec<String>, expr: Box<Expr> },
    MeasurementDef { name: String, spec: MeasurementSpec },
    Experiment { name: String, body: ExperimentBody },
}

/// An expression.
#[derive(Debug, PartialEq, Eq)]
pub enum Expr {
    Number(Real),
    ComplexNumber(Complex),
    Identifier(String),
    Matrix(MatrixLiteral),
    Vector(VectorLiteral),
    Add(Box<Expr>, Box<Expr>),
    Sub(Box<Expr>, Box<Expr>),
    Mul(Box<Expr>, Box<Expr>),
    Div(Box<Expr>, Box<Expr>),
    Pow(Box<Expr>, Box<Expr>),
    Dagger(Box<Expr>),
    Trace(Box<Expr>),
    Tensor(Box<Expr>, Box<Expr>),
    Commutator(Box<Expr>, Box<Expr>),
    AntiCommutator(Box<Expr>, Box<Expr>),
    Expm(Box<Expr>),
    Sqrt(Box<Expr>),
    Sin(Box<Expr>),
    Cos(Box<Expr>),
    Exp(Box<Expr>),
    FuncCall { name: String, args: Vec<Expr> },
}

/// A matrix written out row by row.
#[derive(Debug, PartialEq, Eq)]
pub struct MatrixLiteral {
    pub rows: Vec<Vec<Expr>>,
}

/// A vector written out element by element.
#[derive(Debug, PartialEq, Eq)]
pub struct VectorLiteral {
    pub elements: Vec<Expr>,
}

/// What a measurement consists of.
#[derive(Debug, PartialEq, Eq)]
pub enum MeasurementSpec {
    Projective { projectors: Vec<MatrixLiteral> },
    POVM { effects: Vec<MatrixLiteral> },
}

/// The clauses of an experiment.
#[derive(Debug, PartialEq, Eq)]
pub struct ExperimentBody {
    pub init: Option<StateSpec>,
    pub evolution: Option<EvolutionSpec>,
    pub measurements: Option<MeasurementSchedule>,
}

/// The initial state: a ket or a density matrix.
#[derive(Debug, PartialEq, Eq)]
pub enum StateSpec {
    Ket(VectorLiteral),
    Rho(MatrixLiteral),
}

/// The evolution clause of an experiment.
#[derive(Debug, PartialEq, Eq)]
pub struct EvolutionSpec {
    pub state_name: String,
    pub hamiltonian_name: String,
    pub timegrid: TimeGrid,
    pub lindblad_ops: Vec<LindbladTerm>,
}

/// The time points of an evolution.
#[derive(Debug, PartialEq, Eq)]
pub enum TimeGrid {
    Regular { t0: Real, dt: Real, n_steps: usize },
    Explicit { times: Vec<Real> },
}

/// A dissipation operator with its rate.
#[derive(Debug, PartialEq, Eq)]
pub struct LindbladTerm {
    pub operator_name: String,
    pub rate: Box<Expr>,
}

/// When to measure what.
#[derive(Debug, PartialEq, Eq)]
pub struct MeasurementSchedule {
    pub events: Vec<MeasurementEvent>,
}

/// One scheduled measurement.
#[derive(Debug, PartialEq, Eq)]
pub struct MeasurementEvent {
    pub time: Real,
    pub measurement_name: String,
}

/// `t` is time point `i` of a regular grid: `t0 + i * dt`.
pub open spec fn is_regular_point<A: Arithmetic>(ar: &A, t0: Real, dt: Real, i: usize, t: Real) -> bool {
    exists|c: Real, p: Real|
        is_count(ar, i, c) && #[trigger] is_real_product(ar, c, dt, p) && is_real_sum(ar, t0, p, t)
}

/// `times` are the time points of a grid.
pub open spec fn is_grid_times<A: Arithmetic>(ar: &A, grid: TimeGrid, times: Seq<Real>) -> bool {
    match grid {
        TimeGrid::Regular { t0, dt, n_steps } => times.len() == n_steps + 1 && forall|k: usize|
            k <= n_steps ==> #[trigger] is_regular_point(ar, t0, dt, k, times[k as int]),
        TimeGrid::Explicit { times: given } => times == given@,
    }
}

impl Ast {
    /// A program of the given statements.
    pub fn new(statements: Vec<Statement>) -> (ast: Ast)
        ensures
            ast.statements == statements,
    {
        Ast { statements }
    }
}

impl TimeGrid {
    /// Number of time points: `n_steps + 1` for a regular grid, the length of
    /// the list for an explicit one.
    pub open spec fn point_count(self) -> nat {
        match self {
            TimeGrid::Regular { n_steps, .. } => (n_steps + 1) as nat,
            TimeGrid::Explicit { times } => times@.len(),
        }
    }

    /// Number of time points.
    pub fn len(&self) -> (n: usize)
        requires
            self.point_count() <= usize::MAX,
        ensures
            n == self.point_count(),
    {
        match self {
            TimeGrid::Regular { n_steps, .. } => *n_steps + 1,
            TimeGrid::Explicit { times } => times.len(),
        }
    }

    /// The time points: `t0 + i * dt` for `i` from 0 to `n_steps` for a
    /// regular grid, the list as it is for an explicit one.
    pub fn get_times<A: Arithmetic>(&self, ar: &A) -> (times: Vec<Real>)
        requires
            self.point_count() <= usize::MAX,
        ensures
            is_grid_times(ar, *self, times@),
    {
        match self {
            TimeGrid::Regular { t0, dt, n_steps } => {
                let mut times: Vec<Real> = Vec::new();
                let mut i: usize = 0;
                while i <= *n_steps
                    invariant
                        i <= *n_steps + 1,
                        *n_steps < usize::MAX,
                        times@.len() == i,
                        forall|k: usize|
                            k < i ==> #[trigger] is_regular_point(
                                ar,
                                *t0,
                                *dt,
                                k,
                                times@[k as int],
                            ),
                    decreases *n_steps + 1 - i,
                {
                    let c = ar.real_from_count(i);
                    let p = ar.mul_real(c, *dt);
                    let t = ar.add_real(*t0, p);
                    assert(is_count(ar, i, c) && is_real_product(ar, c, *dt, p) && is_real_sum(
                        ar,
                        *t0,
                        p,
                        t,
                    ));
                    times.push(t);
                    i += 1;
                }
                times
            },
            TimeGrid::Explicit { times } => {
                let mut copied: Vec<Real> = Vec::new();
                let mut k: usize = 0;
                while k < times.len()
                    invariant
                        k <= times@.len(),
                        copied@ == times@.take(k as int),
                    decreases times@.len() - k,
                {
                    copied.push(times[k]);
                    assert(copied@ =~= times@.take(k as int + 1));
                    k += 1;
                }
                assert(copied@ =~= times@);
                copied
            },
        }
    }

    /// A grid is never empty unless it is an explicit, empty list.
    pub fn is_empty(&self) -> (r: bool)
        ensures
            r == (self.point_count() == 0),
    {
        match self {
            TimeGrid::Regular { .. } => false,
            TimeGrid::Explicit { times } => times.len() == 0,
        }
    }
}

} // verus!
