//! The executor: evaluates the nodes of a lowered program, each at most
//! once, and runs its experiments.

use crate::arith::{is_product, is_sum, Arithmetic};
use crate::error::{EngineError, ExecutionFault};
use crate::ir::{
    operator_ids, EvolutionMethod, IrEvolution, IrExperiment, IrMeasurement, IrNode, IrProgram,
    LindbladOperator, MeasurementType, NodeId,
};
use crate::kernels::{
    apply_unitary_ket, apply_unitary_rho, commutator, dagger, expectation, is_commutator_outcome,
    is_exp_outcome, is_expectation_outcome, is_ket_application, is_measurement_outcome,
    is_outer_product, is_rho_application, is_tensor_outcome, is_trace_outcome, ket_to_rho,
    matrix_exp, measure_projective, tensor_product, trace,
};
use crate::matrix::{
    dagger_of, is_matrix_product, is_matrix_sum, is_matrix_vector_product, is_scaled,
    rectangular, Matrix,
};
use crate::ode::{
    embed, evolve_unitary, is_integration, is_unitary_evolution, OdeResult, Rk4Integrator,
};
use crate::scalar::{Complex, Real};
use crate::typechecker::Shape;
use vstd::prelude::*;

verus! {

/// Which engine runs the kernels.
#[derive(Clone, Copy, Debug, PartialEq, Eq, Structural)]
pub enum BackendType {
    CpuDense,
    CpuSparse,
    Gpu,
}

/// How to run a program.
#[derive(Clone, Copy, Debug, PartialEq, Eq, Structural)]
pub struct BackendConfig {
    pub backend_type: BackendType,
    /// A hint that the dense engine does not use.
    pub num_threads: Option<usize>,
}

impl Default for BackendConfig {
    fn default() -> (c: BackendConfig)
        ensures
            c == (BackendConfig { backend_type: BackendType::CpuDense, num_threads: None }),
    {
        BackendConfig { backend_type: BackendType::CpuDense, num_threads: None }
    }
}

/// How the states of a result are to be read.
#[derive(Clone, Copy, Debug, PartialEq, Eq, Structural)]
pub enum StateType {
    PureState,
    DensityMatrix,
}

/// The outcome of one measurement.
#[derive(Debug, PartialEq, Eq)]
pub struct MeasurementResult {
    pub time: Real,
    pub probabilities: Vec<Real>,
}

/// The outcome of one experiment.
#[derive(Debug, PartialEq, Eq)]
pub struct ExperimentResult {
    pub name: String,
    pub times: Vec<Real>,
    pub state_type: StateType,
    pub measurements: Vec<MeasurementResult>,
}

/// The outcome of a program: one result per experiment, in their order.
#[derive(Debug, PartialEq, Eq)]
pub struct ExecutionResult {
    pub experiment_results: Vec<ExperimentResult>,
}

/// The value of a node.
#[derive(Debug, PartialEq, Eq)]
pub enum Value {
    Scalar(Complex),
    Vector(Vec<Complex>),
    Matrix(Matrix),
}

/// What a value denotes.
pub enum Denotation {
    Scalar(Complex),
    Vector(Seq<Complex>),
    Matrix { grid: Seq<Seq<Complex>>, cols: nat },
}

impl View for Value {
    type V = Denotation;

    open spec fn view(&self) -> Denotation {
        match self {
            Value::Scalar(z) => Denotation::Scalar(*z),
            Value::Vector(v) => Denotation::Vector(v@),
            Value::Matrix(m) => Denotation::Matrix { grid: m@, cols: m.ncols() },
        }
    }
}

impl Value {
    /// A matrix value is a well-formed matrix.
    pub open spec fn wf(&self) -> bool {
        match self {
            Value::Matrix(m) => m.wf(),
            _ => true,
        }
    }

    /// A copy that denotes the same.
    pub fn duplicate(&self) -> (v: Value)
        requires
            self.wf(),
        ensures
            v.wf(),
            v@ == self@,
    {
        match self {
            Value::Scalar(z) => Value::Scalar(*z),
            Value::Vector(items) => Value::Vector(copy_vector(items)),
            Value::Matrix(m) => Value::Matrix(m.duplicate()),
        }
    }
}

impl Denotation {
    /// The shape of what is denoted.
    pub open spec fn shape(self) -> Shape {
        match self {
            Denotation::Scalar(_) => Shape::Scalar,
            Denotation::Vector(v) => Shape::Vector(v.len() as usize),
            Denotation::Matrix { grid, cols } => Shape::Matrix(grid.len() as usize, cols as usize),
        }
    }
}

/// A copy of a vector.
pub fn copy_vector(items: &Vec<Complex>) -> (r: Vec<Complex>)
    ensures
        r@ == items@,
{
    let mut out: Vec<Complex> = Vec::new();
    let mut k: usize = 0;
    while k < items.len()
        invariant
            k <= items@.len(),
            out@ == items@.take(k as int),
        decreases items@.len() - k,
    {
        out.push(items[k]);
        assert(out@ =~= items@.take(k as int + 1));
        k += 1;
    }
    assert(out@ =~= items@);
    out
}

/// A copy of a list of reals.
pub fn copy_reals(items: &Vec<Real>) -> (r: Vec<Real>)
    ensures
        r@ == items@,
{
    let mut out: Vec<Real> = Vec::new();
    let mut k: usize = 0;
    while k < items.len()
        invariant
            k <= items@.len(),
            out@ == items@.take(k as int),
        decreases items@.len() - k,
    {
        out.push(items[k]);
        assert(out@ =~= items@.take(k as int + 1));
        k += 1;
    }
    assert(out@ =~= items@);
    out
}

/// The result of a kernel that gives a matrix, as the value of a node.
pub open spec fn lifted(r: Result<Matrix, EngineError>) -> Result<Denotation, EngineError> {
    match r {
        Ok(m) => Ok(Denotation::Matrix { grid: m@, cols: m.ncols() }),
        Err(e) => Err(e),
    }
}

/// The error of an operand of the wrong kind.
pub open spec fn kind_mismatch(node: NodeId) -> EngineError {
    EngineError::ExecutionError(ExecutionFault::KindMismatch { node })
}

/// `r` is the matrix that a leaf holds: `shape.0` rows of `shape.1`
/// elements, taken from `data` row after row; data of another length is an
/// error.
pub open spec fn is_loaded(
    data: Seq<Complex>,
    shape: (usize, usize),
    node: NodeId,
    r: Result<Denotation, EngineError>,
) -> bool {
    if data.len() != shape.0 * shape.1 {
        r == Err::<Denotation, EngineError>(
            EngineError::ExecutionError(ExecutionFault::MatrixLoad { node }),
        )
    } else {
        match r {
            Ok(Denotation::Matrix { grid, cols }) => cols == shape.1 && grid.len() == shape.0
                && rectangular(grid, cols) && forall|i: int, j: int|
                0 <= i < shape.0 && 0 <= j < shape.1 ==> #[trigger] grid[i][j] == data[i * shape.1
                    + j],
            _ => false,
        }
    }
}

/// `r` is the sum of two values: of two matrices of one shape, or of two
/// numbers.
pub open spec fn is_value_sum<A: Arithmetic>(
    ar: &A,
    a: Denotation,
    b: Denotation,
    node: NodeId,
    r: Result<Denotation, EngineError>,
) -> bool {
    match (a, b) {
        (Denotation::Scalar(x), Denotation::Scalar(y)) => r is Ok && r->Ok_0 is Scalar && is_sum(
            ar,
            x,
            y,
            r->Ok_0->Scalar_0,
        ),
        (Denotation::Matrix { grid: x, cols: xc }, Denotation::Matrix { grid: y, cols: yc }) => if x.len()
            == y.len() && xc == yc {
            r is Ok && r->Ok_0 is Matrix && r->Ok_0->cols == xc && is_matrix_sum(
                ar,
                x,
                y,
                r->Ok_0->grid,
            )
        } else {
            r == Err::<Denotation, EngineError>(
                EngineError::DimensionMismatch { expected: a.shape(), actual: b.shape() },
            )
        },
        _ => r == Err::<Denotation, EngineError>(kind_mismatch(node)),
    }
}

/// `r` is the product of two values: of two numbers, of a number and a
/// matrix in either order, of two matrices, or of a matrix and a vector.
pub open spec fn is_value_product<A: Arithmetic>(
    ar: &A,
    a: Denotation,
    b: Denotation,
    node: NodeId,
    r: Result<Denotation, EngineError>,
) -> bool {
    match (a, b) {
        (Denotation::Scalar(x), Denotation::Scalar(y)) => r is Ok && r->Ok_0 is Scalar
            && is_product(ar, x, y, r->Ok_0->Scalar_0),
        (Denotation::Scalar(x), Denotation::Matrix { grid, cols }) => r is Ok && r->Ok_0 is Matrix
            && r->Ok_0->cols == cols && is_scaled(ar, grid, x, r->Ok_0->grid),
        (Denotation::Matrix { grid, cols }, Denotation::Scalar(y)) => r is Ok && r->Ok_0 is Matrix
            && r->Ok_0->cols == cols && is_scaled(ar, grid, y, r->Ok_0->grid),
        (Denotation::Matrix { grid: x, cols: xc }, Denotation::Matrix { grid: y, cols: yc }) => if xc
            == y.len() {
            r is Ok && r->Ok_0 is Matrix && r->Ok_0->cols == yc && is_matrix_product(
                ar,
                x,
                y,
                yc,
                r->Ok_0->grid,
            )
        } else {
            r == Err::<Denotation, EngineError>(
                EngineError::DimensionMismatch { expected: a.shape(), actual: b.shape() },
            )
        },
        (Denotation::Matrix { grid, cols }, Denotation::Vector(v)) => if cols == v.len() {
            r is Ok && r->Ok_0 is Vector && is_matrix_vector_product(
                ar,
                grid,
                v,
                r->Ok_0->Vector_0,
            )
        } else {
            r == Err::<Denotation, EngineError>(
                EngineError::DimensionMismatch {
                    expected: Shape::Vector(cols as usize),
                    actual: b.shape(),
                },
            )
        },
        _ => r == Err::<Denotation, EngineError>(kind_mismatch(node)),
    }
}

/// The sum of two values.
pub fn add_values<A: Arithmetic>(ar: &A, a: &Value, b: &Value, node: NodeId) -> (r: Result<
    Value,
    EngineError,
>)
    requires
        a.wf(),
        b.wf(),
    ensures
        r is Ok ==> r->Ok_0.wf(),
        is_value_sum(ar, a@, b@, node, view_of(r)),
{
    match (a, b) {
        (Value::Scalar(x), Value::Scalar(y)) => Ok(Value::Scalar(ar.add_complex(*x, *y))),
        (Value::Matrix(x), Value::Matrix(y)) => match x.plus(ar, y) {
            Some(m) => Ok(Value::Matrix(m)),
            None => Err(
                EngineError::dimension_mismatch(
                    Shape::Matrix(x.rows(), x.cols()),
                    Shape::Matrix(y.rows(), y.cols()),
                ),
            ),
        },
        _ => Err(EngineError::ExecutionError(ExecutionFault::KindMismatch { node })),
    }
}

/// The product of two values.
pub fn multiply_values<A: Arithmetic>(ar: &A, a: &Value, b: &Value, node: NodeId) -> (r: Result<
    Value,
    EngineError,
>)
    requires
        a.wf(),
        b.wf(),
    ensures
        r is Ok ==> r->Ok_0.wf(),
        is_value_product(ar, a@, b@, node, view_of(r)),
{
    match (a, b) {
        (Value::Scalar(x), Value::Scalar(y)) => Ok(Value::Scalar(ar.mul_complex(*x, *y))),
        (Value::Scalar(x), Value::Matrix(m)) => Ok(Value::Matrix(m.scaled(ar, *x))),
        (Value::Matrix(m), Value::Scalar(y)) => Ok(Value::Matrix(m.scaled(ar, *y))),
        (Value::Matrix(x), Value::Matrix(y)) => match x.times(ar, y) {
            Some(m) => Ok(Value::Matrix(m)),
            None => Err(
                EngineError::dimension_mismatch(
                    Shape::Matrix(x.rows(), x.cols()),
                    Shape::Matrix(y.rows(), y.cols()),
                ),
            ),
        },
        (Value::Matrix(m), Value::Vector(v)) => match m.times_vector(ar, v) {
            Some(w) => Ok(Value::Vector(w)),
            None => Err(
                EngineError::dimension_mismatch(Shape::Vector(m.cols()), Shape::Vector(v.len())),
            ),
        },
        _ => Err(EngineError::ExecutionError(ExecutionFault::KindMismatch { node })),
    }
}

/// What a result of values denotes.
pub open spec fn view_of(r: Result<Value, EngineError>) -> Result<Denotation, EngineError> {
    match r {
        Ok(v) => Ok(v@),
        Err(e) => Err(e),
    }
}

/// A matrix from a kernel as the value of a node.
pub open spec fn matrix_value(out: Result<Matrix, EngineError>) -> Result<Value, EngineError> {
    match out {
        Ok(m) => Ok(Value::Matrix(m)),
        Err(e) => Err(e),
    }
}

/// A number from a kernel as the value of a node.
pub open spec fn scalar_value(out: Result<Complex, EngineError>) -> Result<Value, EngineError> {
    match out {
        Ok(z) => Ok(Value::Scalar(z)),
        Err(e) => Err(e),
    }
}

/// A vector from a kernel as the value of a node.
pub open spec fn vector_value(out: Result<Vec<Complex>, EngineError>) -> Result<
    Value,
    EngineError,
> {
    match out {
        Ok(v) => Ok(Value::Vector(v)),
        Err(e) => Err(e),
    }
}

/// `r` holds the reals of `out` as complex numbers.
pub open spec fn is_real_vector_value(
    out: Result<Vec<Real>, EngineError>,
    r: Result<Value, EngineError>,
) -> bool {
    match out {
        Ok(ps) => r is Ok && r->Ok_0 is Vector && r->Ok_0->Vector_0@.len() == ps@.len() && forall|
            k: int,
        |
            0 <= k < ps@.len() ==> #[trigger] r->Ok_0->Vector_0@[k] == embed(ps@[k]),
        Err(e) => r == Err::<Value, EngineError>(e),
    }
}

/// Whether the values are matrices, all of them.
pub open spec fn all_matrices(vals: Seq<Value>) -> bool {
    forall|k: int| 0 <= k < vals.len() ==> (#[trigger] vals[k]) is Matrix
}

/// `copies` are matrices that denote what the values from place `from` on
/// denote.
pub open spec fn are_copies(vals: Seq<Value>, from: int, copies: Seq<Matrix>) -> bool {
    &&& copies.len() == vals.len() - from
    &&& forall|k: int|
        0 <= k < copies.len() ==> (#[trigger] copies[k]).wf() && vals[from + k] is Matrix
            && copies[k]@ == vals[from + k]->Matrix_0@ && copies[k].cols == vals[from
            + k]->Matrix_0.cols
}

/// `integ` is the integrator for the Hamiltonian `h` and the operators
/// `vals[2..]` with the rates of `ops`.
pub open spec fn is_integrator(
    integ: Rk4Integrator,
    vals: Seq<Value>,
    ops: Seq<LindbladOperator>,
) -> bool {
    &&& integ.wf()
    &&& vals[0] is Matrix
    &&& integ.hamiltonian@ == vals[0]->Matrix_0@
    &&& integ.hamiltonian.cols == vals[0]->Matrix_0.cols
    &&& integ.lindblad_ops@.len() == ops.len()
    &&& forall|k: int|
        0 <= k < ops.len() ==> vals[2 + k] is Matrix && (#[trigger] integ.lindblad_ops@[k]).0@
            == vals[2 + k]->Matrix_0@ && integ.lindblad_ops@[k].0.cols == vals[2
            + k]->Matrix_0.cols && integ.lindblad_ops@[k].1 == ops[k].rate
}

/// `r` is the last state of a trajectory, or its error.
pub open spec fn is_final_state(out: Result<OdeResult, EngineError>, r: Result<Value, EngineError>) -> bool {
    match out {
        Ok(res) => res.states@.len() > 0 && r is Ok && r->Ok_0 is Matrix && r->Ok_0->Matrix_0.wf()
            && r->Ok_0->Matrix_0@ == res.states@.last()@ && r->Ok_0->Matrix_0.cols
            == res.states@.last().cols,
        Err(e) => r == Err::<Value, EngineError>(e),
    }
}

/// `r` is what a node gives for the values `vals` of its operands. An
/// operand of a kind that the operation does not take is a kind mismatch;
/// shapes that do not fit are the error of the kernel.
pub open spec fn is_applied<A: Arithmetic>(
    ar: &A,
    node: IrNode,
    vals: Seq<Value>,
    r: Result<Value, EngineError>,
) -> bool {
    match node {
        IrNode::LoadMatrix { id, data, shape, .. } => is_loaded(data@, shape, id, view_of(r)),
        IrNode::LoadVector { data, .. } => view_of(r) == Ok::<Denotation, EngineError>(
            Denotation::Vector(data@),
        ),
        IrNode::Scalar { value, .. } => view_of(r) == Ok::<Denotation, EngineError>(
            Denotation::Scalar(value),
        ),
        IrNode::MatrixAdd { id, .. } => is_value_sum(ar, vals[0]@, vals[1]@, id, view_of(r)),
        IrNode::MatrixMul { id, .. } => is_value_product(ar, vals[0]@, vals[1]@, id, view_of(r)),
        IrNode::ScalarMul { id, .. } => match (vals[0], vals[1]) {
            (Value::Scalar(x), Value::Matrix(m)) => r is Ok && r->Ok_0 is Matrix
                && r->Ok_0->Matrix_0.cols == m.cols && is_scaled(
                ar,
                m@,
                x,
                r->Ok_0->Matrix_0@,
            ),
            _ => r == Err::<Value, EngineError>(kind_mismatch(id)),
        },
        IrNode::MatrixExp { id, .. } => match vals[0] {
            Value::Matrix(m) => exists|out: Result<Matrix, EngineError>| #[trigger]
                is_exp_outcome(ar, m, out) && r == matrix_value(out),
            _ => r == Err::<Value, EngineError>(kind_mismatch(id)),
        },
        IrNode::TensorProduct { id, .. } => match (vals[0], vals[1]) {
            (Value::Matrix(a), Value::Matrix(b)) => exists|out: Result<Matrix, EngineError>|
                #[trigger] is_tensor_outcome(ar, a, b, out) && r == matrix_value(out),
            _ => r == Err::<Value, EngineError>(kind_mismatch(id)),
        },
        IrNode::Dagger { id, .. } => match vals[0] {
            Value::Matrix(m) => r is Ok && r->Ok_0 is Matrix && r->Ok_0->Matrix_0@ == dagger_of(
                m@,
                m.ncols(),
            ) && r->Ok_0->Matrix_0.ncols() == m.nrows(),
            Value::Scalar(z) => r == Ok::<Value, EngineError>(Value::Scalar(z.conjugate())),
            _ => r == Err::<Value, EngineError>(kind_mismatch(id)),
        },
        IrNode::Trace { id, .. } => match vals[0] {
            Value::Matrix(m) => exists|out: Result<Complex, EngineError>| #[trigger]
                is_trace_outcome(ar, m, out) && r == scalar_value(out),
            _ => r == Err::<Value, EngineError>(kind_mismatch(id)),
        },
        IrNode::Commutator { id, .. } => match (vals[0], vals[1]) {
            (Value::Matrix(a), Value::Matrix(b)) => exists|out: Result<Matrix, EngineError>|
                #[trigger] is_commutator_outcome(ar, a, b, out) && r == matrix_value(out),
            _ => r == Err::<Value, EngineError>(kind_mismatch(id)),
        },
        IrNode::UnitaryPropagator { id, time, .. } => match vals[0] {
            Value::Matrix(h) => exists|generator: Matrix, out: Result<Matrix, EngineError>|
                #[trigger] is_exp_outcome(ar, generator, out) && generator.wf()
                    && generator.nrows() == h.nrows() && generator.ncols() == h.ncols()
                    && is_scaled(
                    ar,
                    h@,
                    Complex { re: Real { bits: 0 }, im: time.negated() },
                    generator@,
                ) && r == matrix_value(out),
            _ => r == Err::<Value, EngineError>(kind_mismatch(id)),
        },
        IrNode::ApplyUnitaryKet { id, .. } => match (vals[0], vals[1]) {
            (Value::Matrix(u), Value::Vector(ket)) => exists|
                out: Result<Vec<Complex>, EngineError>,
            | #[trigger]
                is_ket_application(ar, u, ket@, out) && r == vector_value(out),
            _ => r == Err::<Value, EngineError>(kind_mismatch(id)),
        },
        IrNode::ApplyUnitaryRho { id, .. } => match (vals[0], vals[1]) {
            (Value::Matrix(u), Value::Matrix(rho)) => exists|out: Result<Matrix, EngineError>|
                #[trigger] is_rho_application(ar, u, rho, out) && r == matrix_value(out),
            _ => r == Err::<Value, EngineError>(kind_mismatch(id)),
        },
        IrNode::IntegrateLindblad { id, lindblad_ops, times, .. } => if all_matrices(vals) {
            exists|integ: Rk4Integrator, start: Matrix, out: Result<OdeResult, EngineError>|
                #[trigger] is_integration(ar, integ, start, times@, out) && is_integrator(
                    integ,
                    vals,
                    lindblad_ops@,
                ) && start.wf() && start@ == vals[1]->Matrix_0@ && start.cols
                    == vals[1]->Matrix_0.cols && is_final_state(out, r)
        } else {
            r == Err::<Value, EngineError>(kind_mismatch(id))
        },
        IrNode::MeasureExpectation { id, .. } => match (vals[0], vals[1]) {
            (Value::Matrix(o), Value::Matrix(rho)) => exists|out: Result<Complex, EngineError>|
                #[trigger] is_expectation_outcome(ar, o, rho, out) && r == scalar_value(out),
            _ => r == Err::<Value, EngineError>(kind_mismatch(id)),
        },
        IrNode::MeasureProjective { id, .. } => if all_matrices(vals) {
            exists|copies: Seq<Matrix>, out: Result<Vec<Real>, EngineError>|
                #[trigger] is_measurement_outcome(ar, copies, vals[0]->Matrix_0, out)
                    && are_copies(vals, 1, copies) && is_real_vector_value(out, r)
        } else {
            r == Err::<Value, EngineError>(kind_mismatch(id))
        },
    }
}

/// The results that stand for values, as values.
pub open spec fn values_of(results: Seq<Result<Value, EngineError>>) -> Seq<Value> {
    Seq::new(results.len(), |j: int| results[j]->Ok_0)
}

/// `r` follows from the results of evaluating the operands of a node, first
/// operand first: the first error among them, or what the node gives for
/// their values.
pub open spec fn is_outcome<A: Arithmetic>(
    ar: &A,
    node: IrNode,
    results: Seq<Result<Value, EngineError>>,
    r: Result<Value, EngineError>,
) -> bool {
    &&& results.len() <= node.operands().len()
    &&& forall|j: int| 0 <= j < results.len() - 1 ==> (#[trigger] results[j]) is Ok
    &&& forall|j: int|
        0 <= j < results.len() && results[j] is Ok ==> (#[trigger] results[j])->Ok_0.wf()
    &&& if results.len() > 0 && results.last() is Err {
        r == Err::<Value, EngineError>(results.last()->Err_0)
    } else {
        results.len() == node.operands().len() && is_applied(ar, node, values_of(results), r)
    }
}

/// Whether every operand of a node is an earlier node than `id`.
pub open spec fn operands_earlier(node: IrNode, id: NodeId) -> bool {
    forall|j: int| 0 <= j < node.operands().len() ==> #[trigger] node.operands()[j] < id
}

/// `r` is what evaluating node `id` gives: an id beyond the list, a node
/// that does not carry its position, and an operand that is not an earlier
/// node are errors; else the operands are evaluated, first operand first,
/// and the node is applied to their values.
pub open spec fn is_evaluation<A: Arithmetic>(
    ar: &A,
    nodes: Seq<IrNode>,
    id: NodeId,
    r: Result<Value, EngineError>,
) -> bool
    decreases id,
{
    if id >= nodes.len() {
        r == Err::<Value, EngineError>(
            EngineError::ExecutionError(ExecutionFault::NodeNotFound { node: id }),
        )
    } else if nodes[id as int].spec_id() != id {
        r == Err::<Value, EngineError>(
            EngineError::ExecutionError(ExecutionFault::MisplacedNode { node: id }),
        )
    } else if !operands_earlier(nodes[id as int], id) {
        r == Err::<Value, EngineError>(
            EngineError::ExecutionError(ExecutionFault::ForwardReference { node: id }),
        )
    } else {
        exists|results: Seq<Result<Value, EngineError>>| #[trigger]
            is_outcome(ar, nodes[id as int], results, r) && forall|j: int|
                0 <= j < results.len() && j < nodes[id as int].operands().len()
                    && nodes[id as int].operands()[j] < id ==> is_evaluation(
                    ar,
                    nodes,
                    nodes[id as int].operands()[j],
                    #[trigger] results[j],
                )
    }
}

/// The operands of a node, in their order.
pub fn operand_list(node: &IrNode) -> (r: Vec<NodeId>)
    ensures
        r@ == node.operands(),
{
    let r = match node {
        IrNode::LoadMatrix { .. } => Vec::new(),
        IrNode::LoadVector { .. } => Vec::new(),
        IrNode::Scalar { .. } => Vec::new(),
        IrNode::MatrixAdd { left, right, .. } => vec![*left, *right],
        IrNode::MatrixMul { left, right, .. } => vec![*left, *right],
        IrNode::ScalarMul { scalar, matrix, .. } => vec![*scalar, *matrix],
        IrNode::MatrixExp { input, .. } => vec![*input],
        IrNode::TensorProduct { left, right, .. } => vec![*left, *right],
        IrNode::Dagger { input, .. } => vec![*input],
        IrNode::Trace { input, .. } => vec![*input],
        IrNode::Commutator { left, right, .. } => vec![*left, *right],
        IrNode::UnitaryPropagator { hamiltonian, .. } => vec![*hamiltonian],
        IrNode::ApplyUnitaryKet { unitary, ket, .. } => vec![*unitary, *ket],
        IrNode::ApplyUnitaryRho { unitary, rho, .. } => vec![*unitary, *rho],
        IrNode::IntegrateLindblad { hamiltonian, initial_rho, lindblad_ops, .. } => {
            let mut ids: Vec<NodeId> = vec![*hamiltonian, *initial_rho];
            let mut k: usize = 0;
            while k < lindblad_ops.len()
                invariant
                    k <= lindblad_ops@.len(),
                    ids@ == seq![*hamiltonian, *initial_rho] + operator_ids(
                        lindblad_ops@.take(k as int),
                    ),
                decreases lindblad_ops@.len() - k,
            {
                ids.push(lindblad_ops[k].operator);
                assert(ids@ =~= seq![*hamiltonian, *initial_rho] + operator_ids(
                    lindblad_ops@.take(k as int + 1),
                ));
                k += 1;
            }
            assert(lindblad_ops@.take(lindblad_ops@.len() as int) =~= lindblad_ops@);
            ids
        },
        IrNode::MeasureExpectation { observable, state, .. } => vec![*observable, *state],
        IrNode::MeasureProjective { projectors, state, .. } => {
            let mut ids: Vec<NodeId> = vec![*state];
            let mut k: usize = 0;
            while k < projectors.len()
                invariant
                    k <= projectors@.len(),
                    ids@ == seq![*state] + projectors@.take(k as int),
                decreases projectors@.len() - k,
            {
                ids.push(projectors[k]);
                assert(ids@ =~= seq![*state] + projectors@.take(k as int + 1));
                k += 1;
            }
            assert(projectors@.take(projectors@.len() as int) =~= projectors@);
            ids
        },
    };
    assert(r@ =~= node.operands());
    r
}

/// The values that a cache holds for the nodes `ids`.
pub open spec fn operand_values(cache: Seq<Option<Value>>, ids: Seq<NodeId>) -> Seq<Value> {
    Seq::new(ids.len(), |j: int| cache[ids[j] as int]->Some_0)
}

/// Whether a cache holds a well-formed value for each of the nodes `ids`.
pub open spec fn holds_all(cache: Seq<Option<Value>>, ids: Seq<NodeId>) -> bool {
    forall|j: int|
        0 <= j < ids.len() ==> (#[trigger] ids[j]) < cache.len() && cache[ids[j] as int] is Some
            && cache[ids[j] as int]->Some_0.wf()
}

/// The value that the cache holds for a node.
fn fetch(cache: &Vec<Option<Value>>, id: NodeId) -> (v: &Value)
    requires
        id < cache@.len(),
        cache@[id as int] is Some,
    ensures
        *v == cache@[id as int]->Some_0,
{
    match &cache[id] {
        Some(v) => v,
        None => vstd::pervasive::unreached(),
    }
}

/// Whether the cache holds matrices for all of the nodes `ids`.
fn are_matrices(cache: &Vec<Option<Value>>, ids: &Vec<NodeId>) -> (r: bool)
    requires
        holds_all(cache@, ids@),
    ensures
        r == all_matrices(operand_values(cache@, ids@)),
{
    let mut k: usize = 0;
    while k < ids.len()
        invariant
            k <= ids@.len(),
            holds_all(cache@, ids@),
            forall|j: int| 0 <= j < k ==> (#[trigger] operand_values(cache@, ids@)[j]) is Matrix,
        decreases ids@.len() - k,
    {
        match fetch(cache, ids[k]) {
            Value::Matrix(_) => {},
            _ => {
                assert(!(operand_values(cache@, ids@)[k as int] is Matrix));
                return false;
            },
        }
        k += 1;
    }
    true
}

/// Copies of the matrices that the cache holds for the nodes `ids` from
/// place `from` on.
fn copy_matrices(cache: &Vec<Option<Value>>, ids: &Vec<NodeId>, from: usize) -> (r: Vec<Matrix>)
    requires
        holds_all(cache@, ids@),
        all_matrices(operand_values(cache@, ids@)),
        from <= ids@.len(),
    ensures
        are_copies(operand_values(cache@, ids@), from as int, r@),
{
    let ghost vals = operand_values(cache@, ids@);
    let mut out: Vec<Matrix> = Vec::new();
    let mut k: usize = from;
    while k < ids.len()
        invariant
            from <= k <= ids@.len(),
            holds_all(cache@, ids@),
            vals == operand_values(cache@, ids@),
            all_matrices(vals),
            out@.len() == k - from,
            forall|j: int|
                0 <= j < out@.len() ==> (#[trigger] out@[j]).wf() && out@[j]@ == vals[from
                    + j]->Matrix_0@ && out@[j].cols == vals[from + j]->Matrix_0.cols,
        decreases ids@.len() - k,
    {
        assert(vals[k as int] is Matrix);
        match fetch(cache, ids[k]) {
            Value::Matrix(m) => {
                out.push(m.duplicate());
            },
            _ => vstd::pervasive::unreached(),
        }
        k += 1;
    }
    out
}

/// Applies a node to the values that the cache holds for its operands.
pub fn apply_node<A: Arithmetic>(ar: &A, node: &IrNode, cache: &Vec<Option<Value>>) -> (r: Result<
    Value,
    EngineError,
>)
    requires
        holds_all(cache@, node.operands()),
    ensures
        r is Ok ==> r->Ok_0.wf(),
        is_applied(ar, *node, operand_values(cache@, node.operands()), r),
{
    let ghost vals = operand_values(cache@, node.operands());
    match node {
        IrNode::LoadMatrix { id, data, shape, .. } => {
            match Matrix::from_flat(shape.0, shape.1, data) {
                Some(m) => {
                    assert(rectangular(m@, m.ncols()));
                    Ok(Value::Matrix(m))
                },
                None => Err(EngineError::ExecutionError(ExecutionFault::MatrixLoad { node: *id })),
            }
        },
        IrNode::LoadVector { data, .. } => Ok(Value::Vector(copy_vector(data))),
        IrNode::Scalar { value, .. } => Ok(Value::Scalar(*value)),
        IrNode::MatrixAdd { id, left, right } => {
            assert(node.operands()[0] == *left && node.operands()[1] == *right);
            add_values(ar, fetch(cache, *left), fetch(cache, *right), *id)
        },
        IrNode::MatrixMul { id, left, right } => {
            assert(node.operands()[0] == *left && node.operands()[1] == *right);
            multiply_values(ar, fetch(cache, *left), fetch(cache, *right), *id)
        },
        IrNode::ScalarMul { id, scalar, matrix } => {
            assert(node.operands()[0] == *scalar && node.operands()[1] == *matrix);
            match (fetch(cache, *scalar), fetch(cache, *matrix)) {
                (Value::Scalar(x), Value::Matrix(m)) => Ok(Value::Matrix(m.scaled(ar, *x))),
                _ => Err(EngineError::ExecutionError(ExecutionFault::KindMismatch { node: *id })),
            }
        },
        IrNode::MatrixExp { id, input } => {
            assert(node.operands()[0] == *input);
            match fetch(cache, *input) {
                Value::Matrix(m) => {
                    let out = matrix_exp(ar, m);
                    assert(is_exp_outcome(ar, *m, out));
                    match out {
                        Ok(x) => Ok(Value::Matrix(x)),
                        Err(e) => Err(e),
                    }
                },
                _ => Err(EngineError::ExecutionError(ExecutionFault::KindMismatch { node: *id })),
            }
        },
        IrNode::TensorProduct { id, left, right } => {
            assert(node.operands()[0] == *left && node.operands()[1] == *right);
            match (fetch(cache, *left), fetch(cache, *right)) {
                (Value::Matrix(a), Value::Matrix(b)) => {
                    let out = tensor_product(ar, a, b);
                    assert(is_tensor_outcome(ar, *a, *b, out));
                    match out {
                        Ok(x) => Ok(Value::Matrix(x)),
                        Err(e) => Err(e),
                    }
                },
                _ => Err(EngineError::ExecutionError(ExecutionFault::KindMismatch { node: *id })),
            }
        },
        IrNode::Dagger { id, input } => {
            assert(node.operands()[0] == *input);
            match fetch(cache, *input) {
                Value::Matrix(m) => Ok(Value::Matrix(dagger(m))),
                Value::Scalar(z) => Ok(Value::Scalar(z.conj())),
                _ => Err(EngineError::ExecutionError(ExecutionFault::KindMismatch { node: *id })),
            }
        },
        IrNode::Trace { id, input } => {
            assert(node.operands()[0] == *input);
            match fetch(cache, *input) {
                Value::Matrix(m) => {
                    let out = trace(ar, m);
                    assert(is_trace_outcome(ar, *m, out));
                    match out {
                        Ok(z) => Ok(Value::Scalar(z)),
                        Err(e) => Err(e),
                    }
                },
                _ => Err(EngineError::ExecutionError(ExecutionFault::KindMismatch { node: *id })),
            }
        },
        IrNode::Commutator { id, left, right } => {
            assert(node.operands()[0] == *left && node.operands()[1] == *right);
            match (fetch(cache, *left), fetch(cache, *right)) {
                (Value::Matrix(a), Value::Matrix(b)) => {
                    let out = commutator(ar, a, b);
                    assert(is_commutator_outcome(ar, *a, *b, out));
                    match out {
                        Ok(x) => Ok(Value::Matrix(x)),
                        Err(e) => Err(e),
                    }
                },
                _ => Err(EngineError::ExecutionError(ExecutionFault::KindMismatch { node: *id })),
            }
        },
        IrNode::UnitaryPropagator { id, hamiltonian, time } => {
            assert(node.operands()[0] == *hamiltonian);
            match fetch(cache, *hamiltonian) {
                Value::Matrix(h) => {
                    let generator = h.scaled(ar, Complex::new(Real::zero(), time.neg()));
                    let out = matrix_exp(ar, &generator);
                    assert(is_exp_outcome(ar, generator, out) && generator.wf()
                        && generator.nrows() == h.nrows() && generator.ncols() == h.ncols()
                        && is_scaled(
                        ar,
                        h@,
                        Complex { re: Real { bits: 0 }, im: time.negated() },
                        generator@,
                    ));
                    match out {
                        Ok(x) => Ok(Value::Matrix(x)),
                        Err(e) => Err(e),
                    }
                },
                _ => Err(EngineError::ExecutionError(ExecutionFault::KindMismatch { node: *id })),
            }
        },
        IrNode::ApplyUnitaryKet { id, unitary, ket } => {
            assert(node.operands()[0] == *unitary && node.operands()[1] == *ket);
            match (fetch(cache, *unitary), fetch(cache, *ket)) {
                (Value::Matrix(u), Value::Vector(k)) => {
                    let out = apply_unitary_ket(ar, u, k);
                    assert(is_ket_application(ar, *u, k@, out));
                    match out {
                        Ok(x) => Ok(Value::Vector(x)),
                        Err(e) => Err(e),
                    }
                },
                _ => Err(EngineError::ExecutionError(ExecutionFault::KindMismatch { node: *id })),
            }
        },
        IrNode::ApplyUnitaryRho { id, unitary, rho } => {
            assert(node.operands()[0] == *unitary && node.operands()[1] == *rho);
            match (fetch(cache, *unitary), fetch(cache, *rho)) {
                (Value::Matrix(u), Value::Matrix(x)) => {
                    let out = apply_unitary_rho(ar, u, x);
                    assert(is_rho_application(ar, *u, *x, out));
                    match out {
                        Ok(x) => Ok(Value::Matrix(x)),
                        Err(e) => Err(e),
                    }
                },
                _ => Err(EngineError::ExecutionError(ExecutionFault::KindMismatch { node: *id })),
            }
        },
        IrNode::IntegrateLindblad { id, hamiltonian, initial_rho, lindblad_ops, times } => {
            let ids = operand_list(node);
            if !are_matrices(cache, &ids) {
                return Err(
                    EngineError::ExecutionError(ExecutionFault::KindMismatch { node: *id }),
                );
            }
            assert(node.operands()[0] == *hamiltonian && node.operands()[1] == *initial_rho);
            assert(vals[0] is Matrix && vals[1] is Matrix);
            let h = match fetch(cache, *hamiltonian) {
                Value::Matrix(m) => m.duplicate(),
                _ => vstd::pervasive::unreached(),
            };
            let start = match fetch(cache, *initial_rho) {
                Value::Matrix(m) => m.duplicate(),
                _ => vstd::pervasive::unreached(),
            };
            let copies = copy_matrices(cache, &ids, 2);
            let ghost all = copies@;
            assert(all.len() == lindblad_ops@.len());
            let ordered = with_rates(copies, lindblad_ops);
            let integ = Rk4Integrator::new(h, ordered);
            assert forall|j: int| 0 <= j < lindblad_ops@.len() implies vals[2 + j] is Matrix && (
            #[trigger] integ.lindblad_ops@[j]).0@ == vals[2 + j]->Matrix_0@
                && integ.lindblad_ops@[j].0.cols == vals[2 + j]->Matrix_0.cols
                && integ.lindblad_ops@[j].1 == lindblad_ops@[j].rate
                && integ.lindblad_ops@[j].0.wf() by {
                assert(integ.lindblad_ops@[j].0 == all[j]);
            }
            assert(is_integrator(integ, vals, lindblad_ops@));
            let ghost begun = start;
            let out = integ.integrate(ar, start, times);
            assert(is_integration(ar, integ, begun, times@, out));
            match out {
                Ok(mut res) => {
                    let ghost states = res.states@;
                    match res.states.pop() {
                        Some(last) => {
                            assert(last == states.last());
                            Ok(Value::Matrix(last))
                        },
                        None => vstd::pervasive::unreached(),
                    }
                },
                Err(e) => Err(e),
            }
        },
        IrNode::MeasureExpectation { id, observable, state } => {
            assert(node.operands()[0] == *observable && node.operands()[1] == *state);
            match (fetch(cache, *observable), fetch(cache, *state)) {
                (Value::Matrix(o), Value::Matrix(rho)) => {
                    let out = expectation(ar, o, rho);
                    assert(is_expectation_outcome(ar, *o, *rho, out));
                    match out {
                        Ok(z) => Ok(Value::Scalar(z)),
                        Err(e) => Err(e),
                    }
                },
                _ => Err(EngineError::ExecutionError(ExecutionFault::KindMismatch { node: *id })),
            }
        },
        IrNode::MeasureProjective { id, projectors, state } => {
            let ids = operand_list(node);
            if !are_matrices(cache, &ids) {
                return Err(
                    EngineError::ExecutionError(ExecutionFault::KindMismatch { node: *id }),
                );
            }
            assert(node.operands()[0] == *state);
            assert(vals[0] is Matrix);
            let copies = copy_matrices(cache, &ids, 1);
            match fetch(cache, *state) {
                Value::Matrix(rho) => {
                    let out = measure_projective(ar, &copies, rho);
                    assert(is_measurement_outcome(ar, copies@, *rho, out) && are_copies(
                        vals,
                        1,
                        copies@,
                    ));
                    match out {
                        Ok(ps) => {
                            let mut items: Vec<Complex> = Vec::new();
                            let mut k: usize = 0;
                            while k < ps.len()
                                invariant
                                    k <= ps@.len(),
                                    items@.len() == k,
                                    forall|j: int|
                                        0 <= j < k ==> #[trigger] items@[j] == embed(ps@[j]),
                                decreases ps@.len() - k,
                            {
                                items.push(Complex::from_real(ps[k]));
                                k += 1;
                            }
                            let r = Ok(Value::Vector(items));
                            assert(is_real_vector_value(out, r));
                            r
                        },
                        Err(e) => Err(e),
                    }
                },
                _ => vstd::pervasive::unreached(),
            }
        },
    }
}

/// The executor; holds the value of each node evaluated so far.
pub struct Executor {
    config: BackendConfig,
    cache: Vec<Option<Value>>,
}

/// Every value that a cache holds is well-formed and is what evaluating its
/// node gives.
pub open spec fn memo_sound<A: Arithmetic>(
    ar: &A,
    nodes: Seq<IrNode>,
    cache: Seq<Option<Value>>,
) -> bool {
    &&& cache.len() == nodes.len()
    &&& forall|k: int|
        0 <= k < cache.len() && (#[trigger] cache[k]) is Some ==> cache[k]->Some_0.wf()
            && is_evaluation(ar, nodes, k as usize, Ok(cache[k]->Some_0))
}

/// Whatever the cache `before` holds, the cache `after` holds too.
pub open spec fn memo_kept(before: Seq<Option<Value>>, after: Seq<Option<Value>>) -> bool {
    &&& after.len() == before.len()
    &&& forall|k: int|
        0 <= k < before.len() && (#[trigger] before[k]) is Some ==> after[k] == before[k]
}

impl Executor {
    /// The values held, by node.
    pub closed spec fn memo(&self) -> Seq<Option<Value>> {
        self.cache@
    }

    /// The configuration that the executor was made with.
    pub closed spec fn configuration(&self) -> BackendConfig {
        self.config
    }

    /// An executor that holds no values.
    pub fn new(config: BackendConfig) -> (e: Executor)
        ensures
            e.configuration() == config,
            e.memo().len() == 0,
    {
        Executor { config, cache: Vec::new() }
    }

    /// Evaluates a node unless its value is held already, and its operands
    /// before it. Afterwards the value is held.
    pub fn evaluate<A: Arithmetic>(&mut self, ar: &A, nodes: &Vec<IrNode>, id: NodeId) -> (r:
        Result<(), EngineError>)
        requires
            memo_sound(ar, nodes@, old(self).memo()),
        ensures
            memo_sound(ar, nodes@, final(self).memo()),
            memo_kept(old(self).memo(), final(self).memo()),
            final(self).configuration() == old(self).configuration(),
            match r {
                Ok(()) => id < nodes@.len() && final(self).memo()[id as int] is Some,
                Err(e) => is_evaluation(ar, nodes@, id, Err(e)),
            },
        decreases id,
    {
        if id >= nodes.len() {
            return Err(EngineError::ExecutionError(ExecutionFault::NodeNotFound { node: id }));
        }
        if self.cache[id].is_some() {
            return Ok(());
        }
        let node = &nodes[id];
        if node.id() != id {
            return Err(EngineError::ExecutionError(ExecutionFault::MisplacedNode { node: id }));
        }
        let ids = operand_list(node);
        let mut c: usize = 0;
        while c < ids.len()
            invariant
                c <= ids@.len(),
                id < nodes@.len(),
                ids@ == node.operands(),
                *node == nodes@[id as int],
                node.spec_id() == id,
                self.memo() == old(self).memo(),
                self.config == old(self).config,
                memo_sound(ar, nodes@, self.memo()),
                forall|j: int| 0 <= j < c ==> #[trigger] ids@[j] < id,
            decreases ids@.len() - c,
        {
            if ids[c] >= id {
                assert(!(node.operands()[c as int] < id));
                return Err(
                    EngineError::ExecutionError(ExecutionFault::ForwardReference { node: id }),
                );
            }
            c += 1;
        }
        assert(operands_earlier(*node, id));
        let mut j: usize = 0;
        while j < ids.len()
            invariant
                j <= ids@.len(),
                id < nodes@.len(),
                ids@ == node.operands(),
                *node == nodes@[id as int],
                operands_earlier(*node, id),
                node.spec_id() == id,
                memo_sound(ar, nodes@, self.memo()),
                memo_kept(old(self).memo(), self.memo()),
                self.config == old(self).config,
                forall|k: int|
                    0 <= k < j ==> (#[trigger] ids@[k]) < self.memo().len() && self.memo()[ids@[k] as int] is Some,
            decreases ids@.len() - j,
        {
            let ghost held = self.memo();
            match self.evaluate(ar, nodes, ids[j]) {
                Ok(()) => {},
                Err(e) => {
                    proof {
                        let cache = self.memo();
                        let results = Seq::new(
                            (j + 1) as nat,
                            |k: int|
                                if k < j {
                                    Ok::<Value, EngineError>(cache[ids@[k] as int]->Some_0)
                                } else {
                                    Err::<Value, EngineError>(e)
                                },
                        );
                        assert forall|k: int|
                            0 <= k < results.len() && k < node.operands().len()
                                && node.operands()[k] < id implies is_evaluation(
                            ar,
                            nodes@,
                            node.operands()[k],
                            #[trigger] results[k],
                        ) by {
                            if k < j {
                                assert(held[ids@[k] as int] is Some);
                                assert(cache[ids@[k] as int] is Some);
                            }
                        }
                        assert forall|k: int|
                            0 <= k < results.len() && results[k] is Ok implies (
                        #[trigger] results[k])->Ok_0.wf() by {
                            assert(held[ids@[k] as int] is Some);
                            assert(cache[ids@[k] as int] is Some);
                        }
                        assert(results.last() == Err::<Value, EngineError>(e));
                        assert(is_outcome(ar, *node, results, Err(e)));
                    }
                    return Err(e);
                },
            }
            proof {
                let cache = self.memo();
                assert forall|k: int| 0 <= k < j + 1 implies (#[trigger] ids@[k]) < cache.len()
                    && cache[ids@[k] as int] is Some by {
                    if k < j {
                        assert(held[ids@[k] as int] is Some);
                    }
                }
            }
            j += 1;
        }
        let ghost cache = self.memo();
        assert(holds_all(cache, node.operands())) by {
            assert forall|k: int| 0 <= k < ids@.len() implies (#[trigger] ids@[k]) < cache.len()
                && cache[ids@[k] as int] is Some && cache[ids@[k] as int]->Some_0.wf() by {
                assert(cache[ids@[k] as int] is Some);
            }
        }
        let applied = apply_node(ar, node, &self.cache);
        proof {
            let results = Seq::new(
                ids@.len(),
                |k: int| Ok::<Value, EngineError>(cache[ids@[k] as int]->Some_0),
            );
            assert(values_of(results) =~= operand_values(cache, node.operands()));
            assert forall|k: int|
                0 <= k < results.len() && k < node.operands().len() && node.operands()[k]
                    < id implies is_evaluation(
                ar,
                nodes@,
                node.operands()[k],
                #[trigger] results[k],
            ) by {
                assert(cache[ids@[k] as int] is Some);
            }
            assert forall|k: int| 0 <= k < results.len() && results[k] is Ok implies (
            #[trigger] results[k])->Ok_0.wf() by {
                assert(cache[ids@[k] as int] is Some);
            }
            assert(is_outcome(ar, *node, results, applied));
            assert(is_evaluation(ar, nodes@, id, applied));
        }
        match applied {
            Ok(v) => {
                self.cache[id] = Some(v);
                proof {
                    let after = self.memo();
                    assert forall|k: int|
                        0 <= k < after.len() && (#[trigger] after[k]) is Some implies after[k]->Some_0.wf()
                        && is_evaluation(ar, nodes@, k as usize, Ok(after[k]->Some_0)) by {
                        if k != id {
                            assert(after[k] == cache[k]);
                        }
                    }
                    assert forall|k: int|
                        0 <= k < old(self).memo().len() && (#[trigger] old(self).memo()[k])
                            is Some implies after[k] == old(self).memo()[k] by {
                        assert(cache[k] == old(self).memo()[k]);
                    }
                }
                Ok(())
            },
            Err(e) => Err(e),
        }
    }
}

/// The error of a node that holds no matrix.
pub open spec fn matrix_not_found(node: NodeId) -> EngineError {
    EngineError::ExecutionError(ExecutionFault::MatrixNotFound { node })
}

/// `r` is a copy of the matrix of node `id`: the error of its evaluation,
/// or an error where the node does not exist or holds no matrix.
pub open spec fn is_matrix_lookup<A: Arithmetic>(
    ar: &A,
    nodes: Seq<IrNode>,
    id: NodeId,
    r: Result<Matrix, EngineError>,
) -> bool {
    if id >= nodes.len() {
        r == Err::<Matrix, EngineError>(matrix_not_found(id))
    } else {
        exists|ev: Result<Value, EngineError>| #[trigger]
            is_evaluation(ar, nodes, id, ev) && match ev {
                Err(e) => r == Err::<Matrix, EngineError>(e),
                Ok(Value::Matrix(m)) => r is Ok && r->Ok_0.wf() && r->Ok_0@ == m@ && r->Ok_0.cols
                    == m.cols,
                Ok(_) => r == Err::<Matrix, EngineError>(matrix_not_found(id)),
            }
    }
}

/// The error of an initial state that cannot be had.
pub open spec fn state_not_found() -> EngineError {
    EngineError::ExecutionError(ExecutionFault::InitialStateNotFound)
}

/// `r` is a copy of the state of node `id`, a ket or a density matrix: the
/// error of its evaluation, or an error where the node does not exist or
/// holds a number.
pub open spec fn is_state_lookup<A: Arithmetic>(
    ar: &A,
    nodes: Seq<IrNode>,
    id: NodeId,
    r: Result<Value, EngineError>,
) -> bool {
    if id >= nodes.len() {
        r == Err::<Value, EngineError>(state_not_found())
    } else {
        exists|ev: Result<Value, EngineError>| #[trigger]
            is_evaluation(ar, nodes, id, ev) && match ev {
                Err(e) => r == Err::<Value, EngineError>(e),
                Ok(Value::Scalar(_)) => r == Err::<Value, EngineError>(state_not_found()),
                Ok(v) => r is Ok && r->Ok_0.wf() && r->Ok_0@ == v@,
            }
    }
}

/// `mats` are copies of the matrices of the first `mats.len()` of the nodes
/// `ids`.
pub open spec fn are_lookups<A: Arithmetic>(
    ar: &A,
    nodes: Seq<IrNode>,
    ids: Seq<NodeId>,
    mats: Seq<Matrix>,
) -> bool {
    &&& mats.len() <= ids.len()
    &&& forall|k: int|
        0 <= k < mats.len() ==> #[trigger] is_matrix_lookup(ar, nodes, ids[k], Ok(mats[k]))
}

/// `r` are copies of the matrices of the nodes `ids`, or the error of the
/// first of them that cannot be had.
pub open spec fn is_matrices_lookup<A: Arithmetic>(
    ar: &A,
    nodes: Seq<IrNode>,
    ids: Seq<NodeId>,
    r: Result<Vec<Matrix>, EngineError>,
) -> bool {
    match r {
        Ok(mats) => mats@.len() == ids.len() && are_lookups(ar, nodes, ids, mats@),
        Err(e) => exists|mats: Seq<Matrix>| #[trigger]
            are_lookups(ar, nodes, ids, mats) && mats.len() < ids.len() && is_matrix_lookup(
                ar,
                nodes,
                ids[mats.len() as int],
                Err(e),
            ),
    }
}

/// `states` are the density matrices of the kets `kets`.
pub open spec fn are_outer_products<A: Arithmetic>(
    ar: &A,
    kets: Seq<Vec<Complex>>,
    states: Seq<Matrix>,
) -> bool {
    &&& states.len() == kets.len()
    &&& forall|i: int| 0 <= i < kets.len() ==> #[trigger] is_outer_product(ar, kets[i]@, states[i])
}

/// `r` is the trajectory of unitary evolution from the state `st` under
/// the Hamiltonian `h`: the density matrices of the evolved kets. A state
/// that is no ket is an error.
pub open spec fn is_schrodinger_run<A: Arithmetic>(
    ar: &A,
    h: Matrix,
    st: Result<Value, EngineError>,
    times: Seq<Real>,
    r: Result<Vec<Matrix>, EngineError>,
) -> bool {
    match st {
        Ok(Value::Vector(ket)) => exists|kets: Result<Vec<Vec<Complex>>, EngineError>| #[trigger]
            is_unitary_evolution(ar, h, ket@, times, kets) && match kets {
                Err(e) => r == Err::<Vec<Matrix>, EngineError>(e),
                Ok(ks) => r is Ok && are_outer_products(ar, ks@, r->Ok_0@),
            },
        _ => r == Err::<Vec<Matrix>, EngineError>(
            EngineError::ExecutionError(ExecutionFault::SchrodingerNeedsKet),
        ),
    }
}

/// `rho` is the density matrix of the state `v`: the matrix itself, or the
/// density matrix of the ket.
pub open spec fn is_density_of<A: Arithmetic>(ar: &A, v: Value, rho: Matrix) -> bool {
    match v {
        Value::Vector(ket) => is_outer_product(ar, ket@, rho),
        Value::Matrix(m) => rho.wf() && rho@ == m@ && rho.cols == m.cols,
        Value::Scalar(_) => false,
    }
}

/// `integ` integrates under the Hamiltonian `h` with the matrices `mats`
/// as operators and the rates of `operators`.
pub open spec fn is_assembled(
    integ: Rk4Integrator,
    h: Matrix,
    mats: Seq<Matrix>,
    operators: Seq<LindbladOperator>,
) -> bool {
    &&& integ.wf()
    &&& integ.hamiltonian == h
    &&& integ.lindblad_ops@.len() == operators.len()
    &&& mats.len() == operators.len()
    &&& forall|k: int|
        0 <= k < operators.len() ==> (#[trigger] integ.lindblad_ops@[k]).0 == mats[k]
            && integ.lindblad_ops@[k].1 == operators[k].rate
}

/// `r` is the trajectory of open-system evolution from the state `st`
/// under the Hamiltonian `h`: the error of the state, else that of the first
/// operator that cannot be had, else what the integrator gives.
pub open spec fn is_lindblad_run<A: Arithmetic>(
    ar: &A,
    nodes: Seq<IrNode>,
    h: Matrix,
    st: Result<Value, EngineError>,
    operators: Seq<LindbladOperator>,
    times: Seq<Real>,
    r: Result<Vec<Matrix>, EngineError>,
) -> bool {
    match st {
        Err(e) => r == Err::<Vec<Matrix>, EngineError>(e),
        Ok(v) => exists|rho: Matrix, mats: Result<Vec<Matrix>, EngineError>|
            #![trigger is_density_of(ar, v, rho), is_matrices_lookup(ar, nodes, operator_ids(operators), mats)]
            is_density_of(ar, v, rho) && is_matrices_lookup(
                ar,
                nodes,
                operator_ids(operators),
                mats,
            ) && match mats {
                Err(e) => r == Err::<Vec<Matrix>, EngineError>(e),
                Ok(ms) => exists|integ: Rk4Integrator, out: Result<OdeResult, EngineError>|
                    #![trigger is_integration(ar, integ, rho, times, out)]
                    is_assembled(integ, h, ms@, operators) && is_integration(
                        ar,
                        integ,
                        rho,
                        times,
                        out,
                    ) && match out {
                        Err(e) => r == Err::<Vec<Matrix>, EngineError>(e),
                        Ok(res) => r == Ok::<Vec<Matrix>, EngineError>(res.states),
                    },
            },
    }
}

/// The Hamiltonian of an evolution.
pub open spec fn hamiltonian_of(method: EvolutionMethod) -> NodeId {
    match method {
        EvolutionMethod::Schrodinger { hamiltonian } => hamiltonian,
        EvolutionMethod::Lindblad { hamiltonian, .. } => hamiltonian,
    }
}

/// `r` is the trajectory of an evolution from the state of node `initial`:
/// the Hamiltonian is looked up first, then the state.
pub open spec fn is_evolution_run<A: Arithmetic>(
    ar: &A,
    nodes: Seq<IrNode>,
    initial: NodeId,
    evolution: IrEvolution,
    r: Result<Vec<Matrix>, EngineError>,
) -> bool {
    exists|h: Result<Matrix, EngineError>| #[trigger]
        is_matrix_lookup(ar, nodes, hamiltonian_of(evolution.method), h) && match h {
            Err(e) => r == Err::<Vec<Matrix>, EngineError>(e),
            Ok(hm) => exists|st: Result<Value, EngineError>| #[trigger]
                is_state_lookup(ar, nodes, initial, st) && match evolution.method {
                    EvolutionMethod::Schrodinger { .. } => is_schrodinger_run(
                        ar,
                        hm,
                        st,
                        evolution.times@,
                        r,
                    ),
                    EvolutionMethod::Lindblad { operators, .. } => is_lindblad_run(
                        ar,
                        nodes,
                        hm,
                        st,
                        operators@,
                        evolution.times@,
                        r,
                    ),
                },
        }
}

impl Executor {
    /// A copy of the matrix of a node.
    pub fn get_matrix<A: Arithmetic>(&mut self, ar: &A, nodes: &Vec<IrNode>, id: NodeId) -> (r:
        Result<Matrix, EngineError>)
        requires
            memo_sound(ar, nodes@, old(self).memo()),
        ensures
            memo_sound(ar, nodes@, final(self).memo()),
            memo_kept(old(self).memo(), final(self).memo()),
            final(self).configuration() == old(self).configuration(),
            is_matrix_lookup(ar, nodes@, id, r),
    {
        if id >= nodes.len() {
            return Err(EngineError::ExecutionError(ExecutionFault::MatrixNotFound { node: id }));
        }
        match self.evaluate(ar, nodes, id) {
            Ok(()) => {},
            Err(e) => {
                assert(is_evaluation(ar, nodes@, id, Err(e)));
                return Err(e);
            },
        }
        let v = fetch(&self.cache, id);
        assert(is_evaluation(ar, nodes@, id, Ok(*v)));
        match v {
            Value::Matrix(m) => Ok(m.duplicate()),
            _ => Err(EngineError::ExecutionError(ExecutionFault::MatrixNotFound { node: id })),
        }
    }

    /// A copy of the state of a node: a ket or a density matrix.
    pub fn get_state<A: Arithmetic>(&mut self, ar: &A, nodes: &Vec<IrNode>, id: NodeId) -> (r:
        Result<Value, EngineError>)
        requires
            memo_sound(ar, nodes@, old(self).memo()),
        ensures
            memo_sound(ar, nodes@, final(self).memo()),
            memo_kept(old(self).memo(), final(self).memo()),
            final(self).configuration() == old(self).configuration(),
            is_state_lookup(ar, nodes@, id, r),
            r is Ok ==> !(r->Ok_0 is Scalar),
    {
        if id >= nodes.len() {
            return Err(EngineError::ExecutionError(ExecutionFault::InitialStateNotFound));
        }
        match self.evaluate(ar, nodes, id) {
            Ok(()) => {},
            Err(e) => {
                assert(is_evaluation(ar, nodes@, id, Err(e)));
                return Err(e);
            },
        }
        let v = fetch(&self.cache, id);
        assert(is_evaluation(ar, nodes@, id, Ok(*v)));
        match v {
            Value::Scalar(_) => Err(
                EngineError::ExecutionError(ExecutionFault::InitialStateNotFound),
            ),
            _ => Ok(v.duplicate()),
        }
    }

    /// Copies of the matrices of the nodes `ids`, in their order.
    pub fn get_matrices<A: Arithmetic>(
        &mut self,
        ar: &A,
        nodes: &Vec<IrNode>,
        ids: &Vec<NodeId>,
    ) -> (r: Result<Vec<Matrix>, EngineError>)
        requires
            memo_sound(ar, nodes@, old(self).memo()),
        ensures
            memo_sound(ar, nodes@, final(self).memo()),
            memo_kept(old(self).memo(), final(self).memo()),
            final(self).configuration() == old(self).configuration(),
            is_matrices_lookup(ar, nodes@, ids@, r),
            r is Ok ==> forall|k: int| 0 <= k < r->Ok_0@.len() ==> (#[trigger] r->Ok_0@[k]).wf(),
    {
        let mut mats: Vec<Matrix> = Vec::new();
        let mut k: usize = 0;
        while k < ids.len()
            invariant
                k <= ids@.len(),
                mats@.len() == k,
                memo_sound(ar, nodes@, self.memo()),
                memo_kept(old(self).memo(), self.memo()),
                self.config == old(self).config,
                are_lookups(ar, nodes@, ids@, mats@),
                forall|j: int| 0 <= j < mats@.len() ==> (#[trigger] mats@[j]).wf(),
            decreases ids@.len() - k,
        {
            let ghost held = self.memo();
            match self.get_matrix(ar, nodes, ids[k]) {
                Ok(m) => {
                    assert(m.wf()) by {
                        if ids@[k as int] < nodes@.len() {
                        }
                    }
                    let ghost before = mats@;
                    mats.push(m);
                    assert forall|j: int| 0 <= j < mats@.len() implies #[trigger] is_matrix_lookup(
                        ar,
                        nodes@,
                        ids@[j],
                        Ok(mats@[j]),
                    ) by {
                        if j < k {
                            assert(mats@[j] == before[j]);
                        }
                    }
                },
                Err(e) => {
                    assert(are_lookups(ar, nodes@, ids@, mats@) && mats@.len() < ids@.len()
                        && is_matrix_lookup(ar, nodes@, ids@[mats@.len() as int], Err(e)));
                    return Err(e);
                },
            }
            k += 1;
        }
        Ok(mats)
    }
}

/// What a measurement gives for the matrices `mats` of its operators and
/// the state `rho`: for projectors and effects the probabilities of the
/// outcomes, for an observable the real part of its expectation value.
pub open spec fn is_reading<A: Arithmetic>(
    ar: &A,
    kind: MeasurementType,
    mats: Seq<Matrix>,
    rho: Matrix,
    r: Result<Vec<Real>, EngineError>,
) -> bool {
    match kind {
        MeasurementType::Observable { .. } => exists|out: Result<Complex, EngineError>| #[trigger]
            is_expectation_outcome(ar, mats[0], rho, out) && match out {
                Err(e) => r == Err::<Vec<Real>, EngineError>(e),
                Ok(z) => r is Ok && r->Ok_0@ == seq![z.re],
            },
        _ => is_measurement_outcome(ar, mats, rho, r),
    }
}

/// `r` is the outcome of a measurement on a trajectory: a time index beyond
/// the trajectory or the time points is an error; so is an operator that
/// cannot be had; else the reading at the indexed state, with its time.
pub open spec fn is_measured<A: Arithmetic>(
    ar: &A,
    nodes: Seq<IrNode>,
    m: IrMeasurement,
    times: Seq<Real>,
    states: Seq<Matrix>,
    r: Result<MeasurementResult, EngineError>,
) -> bool {
    if m.time_index >= states.len() || m.time_index >= times.len() {
        r == Err::<MeasurementResult, EngineError>(
            EngineError::ExecutionError(
                ExecutionFault::TimeIndexOutOfRange { index: m.time_index },
            ),
        )
    } else {
        exists|mats: Result<Vec<Matrix>, EngineError>| #[trigger]
            is_matrices_lookup(ar, nodes, m.measurement_type.operands(), mats) && match mats {
                Err(e) => r == Err::<MeasurementResult, EngineError>(e),
                Ok(ms) => exists|reading: Result<Vec<Real>, EngineError>| #[trigger]
                    is_reading(
                        ar,
                        m.measurement_type,
                        ms@,
                        states[m.time_index as int],
                        reading,
                    ) && match reading {
                        Err(e) => r == Err::<MeasurementResult, EngineError>(e),
                        Ok(ps) => r is Ok && r->Ok_0.time == times[m.time_index as int]
                            && r->Ok_0.probabilities == ps,
                    },
            }
    }
}

/// The first `done.len()` measurements have the outcomes `done`.
pub open spec fn are_measured<A: Arithmetic>(
    ar: &A,
    nodes: Seq<IrNode>,
    measurements: Seq<IrMeasurement>,
    times: Seq<Real>,
    states: Seq<Matrix>,
    done: Seq<MeasurementResult>,
) -> bool {
    &&& done.len() <= measurements.len()
    &&& forall|k: int|
        0 <= k < done.len() ==> #[trigger] is_measured(
            ar,
            nodes,
            measurements[k],
            times,
            states,
            Ok(done[k]),
        )
}

/// `r` are the outcomes of the measurements of an experiment, in their
/// order, or the error of the first that fails.
pub open spec fn is_schedule_run<A: Arithmetic>(
    ar: &A,
    nodes: Seq<IrNode>,
    measurements: Seq<IrMeasurement>,
    times: Seq<Real>,
    states: Seq<Matrix>,
    r: Result<Vec<MeasurementResult>, EngineError>,
) -> bool {
    match r {
        Ok(done) => done@.len() == measurements.len() && are_measured(
            ar,
            nodes,
            measurements,
            times,
            states,
            done@,
        ),
        Err(e) => exists|done: Seq<MeasurementResult>| #[trigger]
            are_measured(ar, nodes, measurements, times, states, done) && done.len()
                < measurements.len() && is_measured(
                ar,
                nodes,
                measurements[done.len() as int],
                times,
                states,
                Err(e),
            ),
    }
}

/// The time points of an experiment: those of its evolution, or the single
/// point 0 where it has none.
pub open spec fn times_of(experiment: IrExperiment) -> Seq<Real> {
    match experiment.evolution {
        Some(evolution) => evolution.times@,
        None => seq![Real { bits: 0 }],
    }
}

/// How the states of an experiment are to be read: as pure states where it
/// evolves from a ket, as density matrices otherwise.
pub open spec fn state_type_of(experiment: IrExperiment, initial: Value) -> StateType {
    if experiment.evolution is Some && initial is Vector {
        StateType::PureState
    } else {
        StateType::DensityMatrix
    }
}

/// `r` is the trajectory of an experiment from its initial state `st`: that
/// of its evolution, or the state alone, as a density matrix, where it has
/// none.
pub open spec fn is_trajectory<A: Arithmetic>(
    ar: &A,
    nodes: Seq<IrNode>,
    experiment: IrExperiment,
    initial: Value,
    r: Result<Vec<Matrix>, EngineError>,
) -> bool {
    match experiment.evolution {
        Some(evolution) => is_evolution_run(ar, nodes, experiment.initial_state, evolution, r),
        None => r is Ok && r->Ok_0@.len() == 1 && is_density_of(ar, initial, r->Ok_0@[0]),
    }
}

/// `r` is the result of an experiment: the error of its initial state, of
/// its evolution or of a measurement, in this order; else its name, its
/// time points, how its states are to be read, and the outcomes of its
/// measurements.
pub open spec fn is_experiment_run<A: Arithmetic>(
    ar: &A,
    nodes: Seq<IrNode>,
    experiment: IrExperiment,
    r: Result<ExperimentResult, EngineError>,
) -> bool {
    exists|st: Result<Value, EngineError>| #[trigger]
        is_state_lookup(ar, nodes, experiment.initial_state, st) && match st {
            Err(e) => r == Err::<ExperimentResult, EngineError>(e),
            Ok(initial) => exists|states: Result<Vec<Matrix>, EngineError>| #[trigger]
                is_trajectory(ar, nodes, experiment, initial, states) && match states {
                    Err(e) => r == Err::<ExperimentResult, EngineError>(e),
                    Ok(trajectory) => exists|readings: Result<Vec<MeasurementResult>, EngineError>|
                     #[trigger]
                        is_schedule_run(
                            ar,
                            nodes,
                            experiment.measurements@,
                            times_of(experiment),
                            trajectory@,
                            readings,
                        ) && match readings {
                            Err(e) => r == Err::<ExperimentResult, EngineError>(e),
                            Ok(outcomes) => r is Ok && r->Ok_0.name@ == experiment.name@
                                && r->Ok_0.times@ == times_of(experiment) && r->Ok_0.state_type
                                == state_type_of(experiment, initial) && r->Ok_0.measurements
                                == outcomes,
                        },
                },
        }
}

/// The first `done.len()` experiments have the results `done`.
pub open spec fn are_run<A: Arithmetic>(
    ar: &A,
    nodes: Seq<IrNode>,
    experiments: Seq<IrExperiment>,
    done: Seq<ExperimentResult>,
) -> bool {
    &&& done.len() <= experiments.len()
    &&& forall|k: int|
        0 <= k < done.len() ==> #[trigger] is_experiment_run(
            ar,
            nodes,
            experiments[k],
            Ok(done[k]),
        )
}

/// The first leaf at or after `from` that cannot be loaded, with its error.
pub open spec fn leaf_fault(nodes: Seq<IrNode>, from: int) -> Option<EngineError>
    decreases nodes.len() - from,
{
    if from < 0 || from >= nodes.len() {
        None
    } else if nodes[from].is_leaf() && nodes[from].spec_id() != from {
        Some(EngineError::ExecutionError(ExecutionFault::MisplacedNode { node: from as usize }))
    } else if nodes[from] is LoadMatrix && nodes[from]->LoadMatrix_data@.len()
        != nodes[from]->LoadMatrix_shape.0 * nodes[from]->LoadMatrix_shape.1 {
        Some(
            EngineError::ExecutionError(
                ExecutionFault::MatrixLoad { node: nodes[from]->LoadMatrix_id },
            ),
        )
    } else {
        leaf_fault(nodes, from + 1)
    }
}

/// `r` is the result of a program: the error of the first leaf that cannot
/// be loaded; else the error of the first experiment that fails; else the
/// results of all experiments, in their order.
pub open spec fn is_execution<A: Arithmetic>(
    ar: &A,
    program: IrProgram,
    r: Result<ExecutionResult, EngineError>,
) -> bool {
    match leaf_fault(program.nodes@, 0) {
        Some(e) => r == Err::<ExecutionResult, EngineError>(e),
        None => match r {
            Ok(result) => result.experiment_results@.len() == program.experiments@.len()
                && are_run(ar, program.nodes@, program.experiments@, result.experiment_results@),
            Err(e) => exists|done: Seq<ExperimentResult>| #[trigger]
                are_run(ar, program.nodes@, program.experiments@, done) && done.len()
                    < program.experiments@.len() && is_experiment_run(
                    ar,
                    program.nodes@,
                    program.experiments@[done.len() as int],
                    Err(e),
                ),
        },
    }
}

/// The density matrix of a state that is a ket or a density matrix.
fn density_of<A: Arithmetic>(ar: &A, v: &Value) -> (rho: Matrix)
    requires
        v.wf(),
        !(*v is Scalar),
    ensures
        rho.wf(),
        is_density_of(ar, *v, rho),
{
    match v {
        Value::Vector(ket) => ket_to_rho(ar, ket),
        Value::Matrix(m) => m.duplicate(),
        Value::Scalar(_) => vstd::pervasive::unreached(),
    }
}

/// The density matrices of a list of kets.
fn densities_of<A: Arithmetic>(ar: &A, kets: &Vec<Vec<Complex>>) -> (states: Vec<Matrix>)
    ensures
        are_outer_products(ar, kets@, states@),
        forall|i: int| 0 <= i < states@.len() ==> (#[trigger] states@[i]).wf(),
{
    let mut states: Vec<Matrix> = Vec::new();
    let mut i: usize = 0;
    while i < kets.len()
        invariant
            i <= kets@.len(),
            states@.len() == i,
            forall|k: int| 0 <= k < i ==> #[trigger] is_outer_product(ar, kets@[k]@, states@[k]),
            forall|k: int| 0 <= k < i ==> (#[trigger] states@[k]).wf(),
        decreases kets@.len() - i,
    {
        let rho = ket_to_rho(ar, &kets[i]);
        let ghost before = states@;
        states.push(rho);
        assert forall|k: int| 0 <= k < i + 1 implies #[trigger] is_outer_product(
            ar,
            kets@[k]@,
            states@[k],
        ) by {
            if k < i {
                assert(states@[k] == before[k]);
            }
        }
        i += 1;
    }
    states
}

/// The operators of a list of dissipation terms.
fn operators_of(operators: &Vec<LindbladOperator>) -> (ids: Vec<NodeId>)
    ensures
        ids@ == operator_ids(operators@),
{
    let mut ids: Vec<NodeId> = Vec::new();
    let mut k: usize = 0;
    while k < operators.len()
        invariant
            k <= operators@.len(),
            ids@ == operator_ids(operators@.take(k as int)),
        decreases operators@.len() - k,
    {
        ids.push(operators[k].operator);
        assert(ids@ =~= operator_ids(operators@.take(k as int + 1)));
        k += 1;
    }
    assert(operators@.take(operators@.len() as int) =~= operators@);
    ids
}

/// The matrices paired with the rates of the dissipation terms.
fn with_rates(mats: Vec<Matrix>, operators: &Vec<LindbladOperator>) -> (r: Vec<(Matrix, Real)>)
    requires
        mats@.len() == operators@.len(),
    ensures
        r@.len() == operators@.len(),
        forall|k: int|
            0 <= k < r@.len() ==> (#[trigger] r@[k]).0 == mats@[k] && r@[k].1
                == operators@[k].rate,
{
    let mut rest = mats;
    let mut reversed: Vec<(Matrix, Real)> = Vec::new();
    let n: usize = operators.len();
    let mut k: usize = n;
    while k > 0
        invariant
            k <= n,
            n == operators@.len(),
            n == mats@.len(),
            rest@ == mats@.take(k as int),
            reversed@.len() == n - k,
            forall|j: int|
                0 <= j < reversed@.len() ==> (#[trigger] reversed@[j]).0 == mats@[n - 1 - j]
                    && reversed@[j].1 == operators@[n - 1 - j].rate,
        decreases k,
    {
        let m = match rest.pop() {
            Some(m) => m,
            None => vstd::pervasive::unreached(),
        };
        reversed.push((m, operators[k - 1].rate));
        assert(rest@ =~= mats@.take(k as int - 1));
        k -= 1;
    }
    let mut ordered: Vec<(Matrix, Real)> = Vec::new();
    let ghost all = reversed@;
    let mut q: usize = n;
    while q > 0
        invariant
            q <= n,
            all.len() == n,
            reversed@ == all.take(q as int),
            ordered@.len() == n - q,
            forall|j: int| 0 <= j < ordered@.len() ==> (#[trigger] ordered@[j]) == all[n - 1 - j],
        decreases q,
    {
        let item = match reversed.pop() {
            Some(x) => x,
            None => vstd::pervasive::unreached(),
        };
        ordered.push(item);
        assert(reversed@ =~= all.take(q as int - 1));
        q -= 1;
    }
    assert forall|k: int| 0 <= k < ordered@.len() implies (#[trigger] ordered@[k]).0 == mats@[k]
        && ordered@[k].1 == operators@[k].rate by {
        assert(ordered@[k] == all[n - 1 - k]);
    }
    ordered
}

impl Executor {
    /// Runs the evolution of an experiment from the state of node
    /// `initial_state_id` and returns the trajectory as density matrices.
    pub fn execute_evolution<A: Arithmetic>(
        &mut self,
        ar: &A,
        nodes: &Vec<IrNode>,
        initial_state_id: NodeId,
        evolution: &IrEvolution,
    ) -> (r: Result<Vec<Matrix>, EngineError>)
        requires
            memo_sound(ar, nodes@, old(self).memo()),
        ensures
            memo_sound(ar, nodes@, final(self).memo()),
            memo_kept(old(self).memo(), final(self).memo()),
            final(self).configuration() == old(self).configuration(),
            is_evolution_run(ar, nodes@, initial_state_id, *evolution, r),
            r is Ok ==> forall|k: int| 0 <= k < r->Ok_0@.len() ==> (#[trigger] r->Ok_0@[k]).wf(),
    {
        let hamiltonian = match &evolution.method {
            EvolutionMethod::Schrodinger { hamiltonian } => *hamiltonian,
            EvolutionMethod::Lindblad { hamiltonian, .. } => *hamiltonian,
        };
        assert(hamiltonian == hamiltonian_of(evolution.method));
        let h = match self.get_matrix(ar, nodes, hamiltonian) {
            Ok(h) => h,
            Err(e) => {
                assert(is_matrix_lookup(ar, nodes@, hamiltonian, Err(e)));
                return Err(e);
            },
        };
        let st = self.get_state(ar, nodes, initial_state_id);
        let ghost found = st;
        let ghost held = h;
        assert(is_matrix_lookup(ar, nodes@, hamiltonian, Ok(held)));
        assert(is_state_lookup(ar, nodes@, initial_state_id, found));
        match &evolution.method {
            EvolutionMethod::Schrodinger { .. } => {
                let r = match &st {
                    Ok(Value::Vector(ket)) => {
                        let kets = evolve_unitary(ar, &h, ket, &evolution.times);
                        assert(is_unitary_evolution(ar, h, ket@, evolution.times@, kets));
                        match kets {
                            Ok(ks) => Ok(densities_of(ar, &ks)),
                            Err(e) => Err(e),
                        }
                    },
                    _ => Err(EngineError::ExecutionError(ExecutionFault::SchrodingerNeedsKet)),
                };
                assert(is_schrodinger_run(ar, held, found, evolution.times@, r));
                r
            },
            EvolutionMethod::Lindblad { operators, .. } => {
                let v = match st {
                    Ok(v) => v,
                    Err(e) => {
                        assert(is_lindblad_run(
                            ar,
                            nodes@,
                            held,
                            found,
                            operators@,
                            evolution.times@,
                            Err(e),
                        ));
                        return Err(e);
                    },
                };
                let rho = density_of(ar, &v);
                let ids = operators_of(operators);
                let mats = self.get_matrices(ar, nodes, &ids);
                let ghost looked = mats;
                assert(is_density_of(ar, v, rho) && is_matrices_lookup(
                    ar,
                    nodes@,
                    operator_ids(operators@),
                    looked,
                ));
                let ms = match mats {
                    Ok(ms) => ms,
                    Err(e) => {
                        assert(is_lindblad_run(
                            ar,
                            nodes@,
                            held,
                            found,
                            operators@,
                            evolution.times@,
                            Err(e),
                        ));
                        return Err(e);
                    },
                };
                let ghost copies = ms@;
                let ops = with_rates(ms, operators);
                let integ = Rk4Integrator::new(h, ops);
                assert(is_assembled(integ, held, copies, operators@));
                let ghost begun = rho;
                let out = integ.integrate(ar, rho, &evolution.times);
                assert(is_integration(ar, integ, begun, evolution.times@, out));
                let r = match out {
                    Ok(res) => Ok(res.states),
                    Err(e) => Err(e),
                };
                assert(is_assembled(integ, held, copies, operators@) && is_integration(
                    ar,
                    integ,
                    begun,
                    evolution.times@,
                    out,
                ));
                assert(is_lindblad_run(
                    ar,
                    nodes@,
                    held,
                    found,
                    operators@,
                    evolution.times@,
                    r,
                ));
                r
            },
        }
    }
}

/// A copy of a list of node ids.
fn copy_ids(items: &Vec<NodeId>) -> (r: Vec<NodeId>)
    ensures
        r@ == items@,
{
    let mut out: Vec<NodeId> = Vec::new();
    let mut k: usize = 0;
    while k < items.len()
        invariant
            k <= items@.len(),
            out@ == items@.take(k as int),
        decreases items@.len() - k,
    {
        out.push(items[k]);
        assert(out@ =~= items@.take(k as int + 1));
        k += 1;
    }
    assert(out@ =~= items@);
    out
}

/// The nodes that a measurement reads.
fn measurement_operands(kind: &MeasurementType) -> (ids: Vec<NodeId>)
    ensures
        ids@ == kind.operands(),
{
    match kind {
        MeasurementType::Projective { projectors } => copy_ids(projectors),
        MeasurementType::POVM { effects } => copy_ids(effects),
        MeasurementType::Observable { operator } => {
            let ids = vec![*operator];
            assert(ids@ =~= kind.operands());
            ids
        },
    }
}

impl Executor {
    /// Evaluates one measurement on a trajectory.
    pub fn measure<A: Arithmetic>(
        &mut self,
        ar: &A,
        nodes: &Vec<IrNode>,
        m: &IrMeasurement,
        times: &Vec<Real>,
        states: &Vec<Matrix>,
    ) -> (r: Result<MeasurementResult, EngineError>)
        requires
            memo_sound(ar, nodes@, old(self).memo()),
            forall|k: int| 0 <= k < states@.len() ==> (#[trigger] states@[k]).wf(),
        ensures
            memo_sound(ar, nodes@, final(self).memo()),
            memo_kept(old(self).memo(), final(self).memo()),
            final(self).configuration() == old(self).configuration(),
            is_measured(ar, nodes@, *m, times@, states@, r),
    {
        if m.time_index >= states.len() || m.time_index >= times.len() {
            return Err(
                EngineError::ExecutionError(
                    ExecutionFault::TimeIndexOutOfRange { index: m.time_index },
                ),
            );
        }
        let ids = measurement_operands(&m.measurement_type);
        let mats = self.get_matrices(ar, nodes, &ids);
        let ghost looked = mats;
        assert(is_matrices_lookup(ar, nodes@, m.measurement_type.operands(), looked));
        let ms = match mats {
            Ok(ms) => ms,
            Err(e) => {
                return Err(e);
            },
        };
        let rho = &states[m.time_index];
        let reading = match &m.measurement_type {
            MeasurementType::Observable { .. } => {
                let out = expectation(ar, &ms[0], rho);
                assert(is_expectation_outcome(ar, ms@[0], *rho, out));
                match out {
                    Ok(z) => {
                        let ps = vec![z.re];
                        assert(ps@ =~= seq![z.re]);
                        Ok(ps)
                    },
                    Err(e) => Err(e),
                }
            },
            _ => measure_projective(ar, &ms, rho),
        };
        assert(is_reading(ar, m.measurement_type, ms@, states@[m.time_index as int], reading));
        match reading {
            Ok(ps) => Ok(MeasurementResult { time: times[m.time_index], probabilities: ps }),
            Err(e) => Err(e),
        }
    }

    /// Evaluates the measurements of an experiment in their order.
    pub fn run_schedule<A: Arithmetic>(
        &mut self,
        ar: &A,
        nodes: &Vec<IrNode>,
        measurements: &Vec<IrMeasurement>,
        times: &Vec<Real>,
        states: &Vec<Matrix>,
    ) -> (r: Result<Vec<MeasurementResult>, EngineError>)
        requires
            memo_sound(ar, nodes@, old(self).memo()),
            forall|k: int| 0 <= k < states@.len() ==> (#[trigger] states@[k]).wf(),
        ensures
            memo_sound(ar, nodes@, final(self).memo()),
            memo_kept(old(self).memo(), final(self).memo()),
            final(self).configuration() == old(self).configuration(),
            is_schedule_run(ar, nodes@, measurements@, times@, states@, r),
    {
        let mut done: Vec<MeasurementResult> = Vec::new();
        let mut k: usize = 0;
        while k < measurements.len()
            invariant
                k <= measurements@.len(),
                done@.len() == k,
                memo_sound(ar, nodes@, self.memo()),
                memo_kept(old(self).memo(), self.memo()),
                self.config == old(self).config,
                forall|j: int| 0 <= j < states@.len() ==> (#[trigger] states@[j]).wf(),
                are_measured(ar, nodes@, measurements@, times@, states@, done@),
            decreases measurements@.len() - k,
        {
            match self.measure(ar, nodes, &measurements[k], times, states) {
                Ok(x) => {
                    let ghost before = done@;
                    done.push(x);
                    assert forall|j: int| 0 <= j < done@.len() implies #[trigger] is_measured(
                        ar,
                        nodes@,
                        measurements@[j],
                        times@,
                        states@,
                        Ok(done@[j]),
                    ) by {
                        if j < k {
                            assert(done@[j] == before[j]);
                        }
                    }
                },
                Err(e) => {
                    assert(are_measured(ar, nodes@, measurements@, times@, states@, done@)
                        && done@.len() < measurements@.len() && is_measured(
                        ar,
                        nodes@,
                        measurements@[done@.len() as int],
                        times@,
                        states@,
                        Err(e),
                    ));
                    return Err(e);
                },
            }
            k += 1;
        }
        Ok(done)
    }

    /// Runs one experiment: resolves its initial state, evolves it where an
    /// evolution is given, and evaluates its measurements.
    pub fn execute_experiment<A: Arithmetic>(
        &mut self,
        ar: &A,
        nodes: &Vec<IrNode>,
        experiment: &IrExperiment,
    ) -> (r: Result<ExperimentResult, EngineError>)
        requires
            memo_sound(ar, nodes@, old(self).memo()),
        ensures
            memo_sound(ar, nodes@, final(self).memo()),
            memo_kept(old(self).memo(), final(self).memo()),
            final(self).configuration() == old(self).configuration(),
            is_experiment_run(ar, nodes@, *experiment, r),
    {
        let st = self.get_state(ar, nodes, experiment.initial_state);
        let ghost found = st;
        assert(is_state_lookup(ar, nodes@, experiment.initial_state, found));
        let initial = match st {
            Ok(v) => v,
            Err(e) => {
                return Err(e);
            },
        };
        let (times, state_type) = match &experiment.evolution {
            Some(evolution) => {
                let state_type = match &initial {
                    Value::Vector(_) => StateType::PureState,
                    _ => StateType::DensityMatrix,
                };
                (copy_reals(&evolution.times), state_type)
            },
            None => {
                let times = vec![Real::zero()];
                assert(times@ =~= seq![Real { bits: 0 }]);
                (times, StateType::DensityMatrix)
            },
        };
        let states = match &experiment.evolution {
            Some(evolution) => self.execute_evolution(
                ar,
                nodes,
                experiment.initial_state,
                evolution,
            ),
            None => {
                let rho = density_of(ar, &initial);
                let only = vec![rho];
                assert(only@[0] == rho);
                Ok(only)
            },
        };
        let ghost evolved = states;
        assert(is_trajectory(ar, nodes@, *experiment, initial, evolved));
        let trajectory = match states {
            Ok(t) => t,
            Err(e) => {
                return Err(e);
            },
        };
        let readings = self.run_schedule(
            ar,
            nodes,
            &experiment.measurements,
            &times,
            &trajectory,
        );
        let ghost read = readings;
        assert(is_schedule_run(
            ar,
            nodes@,
            experiment.measurements@,
            times_of(*experiment),
            trajectory@,
            read,
        ));
        match readings {
            Ok(measurements) => Ok(
                ExperimentResult { name: experiment.name.clone(), times, state_type, measurements },
            ),
            Err(e) => Err(e),
        }
    }

    /// Runs a program: forgets what was held, loads every leaf, then runs
    /// the experiments in their order. The first failure ends the run and is
    /// the error; no partial result is returned.
    pub fn execute<A: Arithmetic>(&mut self, ar: &A, ir: &IrProgram) -> (r: Result<
        ExecutionResult,
        EngineError,
    >)
        ensures
            final(self).configuration() == old(self).configuration(),
            memo_sound(ar, ir.nodes@, final(self).memo()),
            is_execution(ar, *ir, r),
    {
        self.cache = Vec::new();
        let mut c: usize = 0;
        while c < ir.nodes.len()
            invariant
                c <= ir.nodes@.len(),
                self.config == old(self).config,
                self.cache@.len() == c,
                forall|k: int| 0 <= k < c ==> (#[trigger] self.cache@[k]) is None,
            decreases ir.nodes@.len() - c,
        {
            self.cache.push(None);
            c += 1;
        }
        let mut i: usize = 0;
        while i < ir.nodes.len()
            invariant
                i <= ir.nodes@.len(),
                self.config == old(self).config,
                memo_sound(ar, ir.nodes@, self.memo()),
                leaf_fault(ir.nodes@, 0) == leaf_fault(ir.nodes@, i as int),
            decreases ir.nodes@.len() - i,
        {
            let leaf = match &ir.nodes[i] {
                IrNode::LoadMatrix { .. } => true,
                IrNode::LoadVector { .. } => true,
                IrNode::Scalar { .. } => true,
                _ => false,
            };
            if leaf {
                let ghost node = ir.nodes@[i as int];
                assert(node.operands() =~= Seq::<NodeId>::empty());
                match self.evaluate(ar, &ir.nodes, i) {
                    Ok(()) => {
                        proof {
                            let v = self.memo()[i as int]->Some_0;
                            assert(self.memo()[i as int] is Some);
                            assert(is_evaluation(ar, ir.nodes@, i, Ok(v)));
                        }
                    },
                    Err(e) => {
                        assert(is_evaluation(ar, ir.nodes@, i, Err(e)));
                        assert(leaf_fault(ir.nodes@, i as int) == Some(e));
                        return Err(e);
                    },
                }
            }
            i += 1;
        }
        let mut done: Vec<ExperimentResult> = Vec::new();
        let mut k: usize = 0;
        while k < ir.experiments.len()
            invariant
                k <= ir.experiments@.len(),
                done@.len() == k,
                self.config == old(self).config,
                memo_sound(ar, ir.nodes@, self.memo()),
                leaf_fault(ir.nodes@, 0) is None,
                are_run(ar, ir.nodes@, ir.experiments@, done@),
            decreases ir.experiments@.len() - k,
        {
            match self.execute_experiment(ar, &ir.nodes, &ir.experiments[k]) {
                Ok(x) => {
                    let ghost before = done@;
                    done.push(x);
                    assert forall|j: int| 0 <= j < done@.len() implies #[trigger] is_experiment_run(
                        ar,
                        ir.nodes@,
                        ir.experiments@[j],
                        Ok(done@[j]),
                    ) by {
                        if j < k {
                            assert(done@[j] == before[j]);
                        }
                    }
                },
                Err(e) => {
                    assert(are_run(ar, ir.nodes@, ir.experiments@, done@) && done@.len()
                        < ir.experiments@.len() && is_experiment_run(
                        ar,
                        ir.nodes@,
                        ir.experiments@[done@.len() as int],
                        Err(e),
                    ));
                    return Err(e);
                },
            }
            k += 1;
        }
        Ok(ExecutionResult { experiment_results: done })
    }
}

} // verus!
