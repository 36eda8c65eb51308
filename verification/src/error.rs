//! The errors of the engine. Each carries the data of the violation it
//! reports; rendering them as text is left to the caller.

use crate::scalar::Real;
use crate::typechecker::Shape;
use vstd::prelude::*;

verus! {

/// A shape rule that an expression or declaration breaks.
#[derive(Clone, Debug, PartialEq, Eq)]
pub enum TypeFault {
    /// A matrix literal without rows.
    EmptyMatrix,
    /// Row `row` has `found` elements where row 0 has `expected`.
    RaggedMatrix { row: usize, expected: usize, found: usize },
    /// A name that nothing declares.
    UnknownIdentifier(String),
    /// A product of two shapes that cannot be multiplied.
    InvalidMultiplication,
    /// A division by something that is not a scalar.
    NonScalarDivisor,
    /// A trace of something that is not a square matrix.
    TraceOperand,
    /// A tensor product of a matrix with a vector, or with a scalar.
    TensorOperands,
    /// A commutator of operands that are not square matrices of one size.
    CommutatorOperands,
    /// A matrix function of something neither scalar nor square.
    MatrixFunctionOperand,
    /// A Hamiltonian whose expression is not a square matrix.
    HamiltonianNotSquare { name: String, shape: Shape },
    /// An initial density matrix that is not square.
    DensityMatrixNotSquare,
    /// A dimension that does not fit in the machine's word.
    DimensionOverflow,
}

/// A malformed program or input, found before any number is looked at.
#[derive(Clone, Debug, PartialEq, Eq)]
pub enum ValidationFault {
    EmptyProjectorSet,
    EmptyEffectSet,
    /// A positivity check on a matrix that is not square.
    PsdNeedsSquare,
    /// A positivity check on a matrix that is not Hermitian.
    PsdNeedsHermitian,
    /// The eigenvalues could not be computed.
    EigenvaluesFailed,
    /// A trace of a matrix that is not square.
    TraceNeedsSquare,
    /// A matrix literal whose rows differ in length, or without rows.
    MalformedMatrix,
    /// An identifier that names no constant.
    NotAConstant(String),
    /// An identifier that names no matrix.
    MatrixNotFound(String),
    /// An expression that is no arithmetic over constants.
    NotConstantArithmetic,
    /// An integration over no time points.
    EmptyTimeGrid,
    /// A time grid that does not strictly increase.
    TimeGridNotIncreasing,
    /// An experiment without an initial state.
    MissingInitialState,
    /// A value below the minimum of its parameter.
    BelowMinimum { name: String, value: Real, min: Real },
    /// A value above the maximum of its parameter.
    AboveMaximum { name: String, value: Real, max: Real },
    /// A value that is zero or negative where it must be positive.
    NotPositive { name: String, value: Real },
    /// A value that is not whole where it must be.
    NotWhole { name: String, value: Real },
    /// Lists of measurements, uncertainties and predictions of different
    /// lengths.
    LengthMismatch,
    /// An uncertainty whose square is zero or negative.
    UncertaintyNotPositive { value: Real },
    /// An event was observed to which the prediction gives no chance.
    ZeroProbability,
    /// An event for which nothing is predicted.
    NoPrediction { time: Real, outcome: usize },
    /// More counted events at one time of one measurement than the
    /// machine's word can count.
    CountOverflow,
    /// A confidence level other than 0.68, 0.95 and 0.99.
    ConfidenceLevel { level: Real },
}

/// A law of quantum mechanics that a declaration breaks.
#[derive(Clone, Debug, PartialEq, Eq)]
pub enum QuantumFault {
    /// A Hamiltonian that is not Hermitian: with the largest modulus among
    /// the elements of `H - H†`, or without one where `H` is not square.
    HamiltonianNotHermitian { name: String, deviation: Option<Real> },
    /// A projector `P` with an element of `P P - P` of modulus `deviation`,
    /// which is beyond the tolerance.
    ProjectorNotIdempotent { index: usize, measurement: String, deviation: Real },
    /// Projectors whose sum differs from the identity by `deviation` in
    /// some element.
    ProjectorsIncomplete { measurement: String, deviation: Real },
    /// An effect that failed the positivity check; with its least
    /// eigenvalue, where the check came that far.
    EffectNotPsd { index: usize, measurement: String, min_eigenvalue: Option<Real> },
    /// Effects whose sum differs from the identity by `deviation` in some
    /// element.
    EffectsIncomplete { measurement: String, deviation: Real },
    /// A ket whose squared norm, given here, is not one.
    KetNotNormalized { norm_sqr: Real },
}

/// A form that the engine knows and does not yet handle.
#[derive(Clone, Debug, PartialEq, Eq)]
pub enum UnsupportedFeature {
    /// A matrix expression beyond literals, names, sums and products.
    MatrixExpression,
    /// An expression for which the graph has no operation.
    ExpressionLowering,
    /// A dissipation rate that is not a number literal.
    NonConstantRate,
    /// A sweep within a sweep.
    NestedSweep,
}

/// Two stages of the pipeline disagree.
#[derive(Clone, Debug, PartialEq, Eq)]
pub enum InternalFault {
    UndefinedIdentifier(String),
    HamiltonianNotFound(String),
    OperatorNotFound(String),
    /// More nodes or time points than the machine's word can count.
    CounterOverflow,
}

/// A failure while running the graph.
#[derive(Clone, Debug, PartialEq, Eq)]
pub enum ExecutionFault {
    /// The eigendecomposition did not converge, or gave the wrong sizes.
    DecompositionFailed,
    /// A leaf matrix whose data does not fill its shape.
    MatrixLoad { node: usize },
    InitialStateNotFound,
    /// A unitary evolution was asked for a density matrix.
    SchrodingerNeedsKet,
    /// A node id beyond the end of the list of nodes.
    NodeNotFound { node: usize },
    MatrixNotFound { node: usize },
    /// A node refers to itself or to a later node.
    ForwardReference { node: usize },
    /// A node's position in the list is not its id.
    MisplacedNode { node: usize },
    /// An operand is of the wrong kind for the operation.
    KindMismatch { node: usize },
    /// A measurement names a time point that the trajectory lacks.
    TimeIndexOutOfRange { index: usize },
}

/// Everything that can go wrong in the engine.
#[derive(Clone, Debug, PartialEq, Eq)]
pub enum EngineError {
    ParseError { line: usize, column: usize, message: String },
    TypeError(TypeFault),
    ValidationError(ValidationFault),
    QuantumConstraintError(QuantumFault),
    DimensionMismatch { expected: Shape, actual: Shape },
    NotHermitian { deviation: Real },
    NotPSD { min_eigenvalue: Real },
    TraceError { expected: Real, actual: Real },
    NotCPTP { reason: String },
    ExecutionError(ExecutionFault),
    IntegrationError(String),
    IoError(String),
    NotFound(String),
    InvalidState(String),
    SerializationError(String),
    Unsupported(UnsupportedFeature),
    Internal(InternalFault),
}

impl EngineError {
    /// A parse error at a place in the source.
    pub fn parse_error(line: usize, column: usize, message: String) -> (e: EngineError)
        ensures
            e == (EngineError::ParseError { line, column, message }),
    {
        EngineError::ParseError { line, column, message }
    }

    /// A type error.
    pub fn type_error(fault: TypeFault) -> (e: EngineError)
        ensures
            e == EngineError::TypeError(fault),
    {
        EngineError::TypeError(fault)
    }

    /// A validation error.
    pub fn validation_error(fault: ValidationFault) -> (e: EngineError)
        ensures
            e == EngineError::ValidationError(fault),
    {
        EngineError::ValidationError(fault)
    }

    /// A violation of a law of quantum mechanics.
    pub fn quantum_error(fault: QuantumFault) -> (e: EngineError)
        ensures
            e == EngineError::QuantumConstraintError(fault),
    {
        EngineError::QuantumConstraintError(fault)
    }

    /// A mismatch between the shape that was needed and the one that was found.
    pub fn dimension_mismatch(expected: Shape, actual: Shape) -> (e: EngineError)
        ensures
            e == (EngineError::DimensionMismatch { expected, actual }),
    {
        EngineError::DimensionMismatch { expected, actual }
    }
}

} // verus!
