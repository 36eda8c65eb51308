//! The intermediate representation: an append-only list of operation nodes,
//! each named by its position, and the experiments to run on them.

use crate::scalar::{Complex, Real};
use vstd::prelude::*;

verus! {

/// The position of a node in the list of nodes.
pub type NodeId = usize;

/// A lowered program.
#[derive(Debug, PartialEq, Eq)]
pub struct IrProgram {
    pub nodes: Vec<IrNode>,
    pub experiments: Vec<IrExperiment>,
}

/// One operation.
#[derive(Debug, PartialEq, Eq)]
pub enum IrNode {
    /// A constant matrix, its elements row after row.
    LoadMatrix { id: NodeId, name: String, data: Vec<Complex>, shape: (usize, usize) },
    /// A constant vector.
    LoadVector { id: NodeId, name: String, data: Vec<Complex> },
    /// A constant number.
    Scalar { id: NodeId, value: Complex },
    MatrixAdd { id: NodeId, left: NodeId, right: NodeId },
    MatrixMul { id: NodeId, left: NodeId, right: NodeId },
    ScalarMul { id: NodeId, scalar: NodeId, matrix: NodeId },
    MatrixExp { id: NodeId, input: NodeId },
    TensorProduct { id: NodeId, left: NodeId, right: NodeId },
    Dagger { id: NodeId, input: NodeId },
    Trace { id: NodeId, input: NodeId },
    Commutator { id: NodeId, left: NodeId, right: NodeId },
    /// The propagator `exp(-i H t)`.
    UnitaryPropagator { id: NodeId, hamiltonian: NodeId, time: Real },
    ApplyUnitaryKet { id: NodeId, unitary: NodeId, ket: NodeId },
    ApplyUnitaryRho { id: NodeId, unitary: NodeId, rho: NodeId },
    IntegrateLindblad {
        id: NodeId,
        hamiltonian: NodeId,
        initial_rho: NodeId,
        lindblad_ops: Vec<LindbladOperator>,
        times: Vec<Real>,
    },
    MeasureExpectation { id: NodeId, observable: NodeId, state: NodeId },
    MeasureProjective { id: NodeId, projectors: Vec<NodeId>, state: NodeId },
}

/// A dissipation operator with its rate.
#[derive(Clone, Copy, Debug, PartialEq, Eq, Structural)]
pub struct LindbladOperator {
    pub operator: NodeId,
    pub rate: Real,
}

/// One experiment of a lowered program.
#[derive(Debug, PartialEq, Eq)]
pub struct IrExperiment {
    pub name: String,
    pub initial_state: NodeId,
    pub evolution: Option<IrEvolution>,
    pub measurements: Vec<IrMeasurement>,
}

/// How a state evolves, and over which time points.
#[derive(Debug, PartialEq, Eq)]
pub struct IrEvolution {
    pub method: EvolutionMethod,
    pub times: Vec<Real>,
}

/// The law of evolution.
#[derive(Debug, PartialEq, Eq)]
pub enum EvolutionMethod {
    Schrodinger { hamiltonian: NodeId },
    Lindblad { hamiltonian: NodeId, operators: Vec<LindbladOperator> },
}

/// A measurement at one time point of the trajectory.
#[derive(Debug, PartialEq, Eq)]
pub struct IrMeasurement {
    pub time_index: usize,
    pub measurement_type: MeasurementType,
}

/// What is measured.
#[derive(Debug, PartialEq, Eq)]
pub enum MeasurementType {
    Projective { projectors: Vec<NodeId> },
    POVM { effects: Vec<NodeId> },
    Observable { operator: NodeId },
}

/// The operators of a list of dissipation terms.
pub open spec fn operator_ids(ops: Seq<LindbladOperator>) -> Seq<NodeId> {
    Seq::new(ops.len(), |i: int| ops[i].operator)
}

impl IrNode {
    /// The id that the node carries.
    pub open spec fn spec_id(self) -> NodeId {
        match self {
            IrNode::LoadMatrix { id, .. } => id,
            IrNode::LoadVector { id, .. } => id,
            IrNode::Scalar { id, .. } => id,
            IrNode::MatrixAdd { id, .. } => id,
            IrNode::MatrixMul { id, .. } => id,
            IrNode::ScalarMul { id, .. } => id,
            IrNode::MatrixExp { id, .. } => id,
            IrNode::TensorProduct { id, .. } => id,
            IrNode::Dagger { id, .. } => id,
            IrNode::Trace { id, .. } => id,
            IrNode::Commutator { id, .. } => id,
            IrNode::UnitaryPropagator { id, .. } => id,
            IrNode::ApplyUnitaryKet { id, .. } => id,
            IrNode::ApplyUnitaryRho { id, .. } => id,
            IrNode::IntegrateLindblad { id, .. } => id,
            IrNode::MeasureExpectation { id, .. } => id,
            IrNode::MeasureProjective { id, .. } => id,
        }
    }

    /// The nodes whose values the node reads.
    pub open spec fn operands(self) -> Seq<NodeId> {
        match self {
            IrNode::LoadMatrix { .. } => seq![],
            IrNode::LoadVector { .. } => seq![],
            IrNode::Scalar { .. } => seq![],
            IrNode::MatrixAdd { left, right, .. } => seq![left, right],
            IrNode::MatrixMul { left, right, .. } => seq![left, right],
            IrNode::ScalarMul { scalar, matrix, .. } => seq![scalar, matrix],
            IrNode::MatrixExp { input, .. } => seq![input],
            IrNode::TensorProduct { left, right, .. } => seq![left, right],
            IrNode::Dagger { input, .. } => seq![input],
            IrNode::Trace { input, .. } => seq![input],
            IrNode::Commutator { left, right, .. } => seq![left, right],
            IrNode::UnitaryPropagator { hamiltonian, .. } => seq![hamiltonian],
            IrNode::ApplyUnitaryKet { unitary, ket, .. } => seq![unitary, ket],
            IrNode::ApplyUnitaryRho { unitary, rho, .. } => seq![unitary, rho],
            IrNode::IntegrateLindblad { hamiltonian, initial_rho, lindblad_ops, .. } => seq![
                hamiltonian,
                initial_rho,
            ] + operator_ids(lindblad_ops@),
            IrNode::MeasureExpectation { observable, state, .. } => seq![observable, state],
            IrNode::MeasureProjective { projectors, state, .. } => seq![state] + projectors@,
        }
    }

    /// Whether the node is a constant: a matrix, a vector or a number.
    pub open spec fn is_leaf(self) -> bool {
        self is LoadMatrix || self is LoadVector || self is Scalar
    }

    /// The id that the node carries.
    pub fn id(&self) -> (r: NodeId)
        ensures
            r == self.spec_id(),
    {
        match self {
            IrNode::LoadMatrix { id, .. } => *id,
            IrNode::LoadVector { id, .. } => *id,
            IrNode::Scalar { id, .. } => *id,
            IrNode::MatrixAdd { id, .. } => *id,
            IrNode::MatrixMul { id, .. } => *id,
            IrNode::ScalarMul { id, .. } => *id,
            IrNode::MatrixExp { id, .. } => *id,
            IrNode::TensorProduct { id, .. } => *id,
            IrNode::Dagger { id, .. } => *id,
            IrNode::Trace { id, .. } => *id,
            IrNode::Commutator { id, .. } => *id,
            IrNode::UnitaryPropagator { id, .. } => *id,
            IrNode::ApplyUnitaryKet { id, .. } => *id,
            IrNode::ApplyUnitaryRho { id, .. } => *id,
            IrNode::IntegrateLindblad { id, .. } => *id,
            IrNode::MeasureExpectation { id, .. } => *id,
            IrNode::MeasureProjective { id, .. } => *id,
        }
    }
}

/// Every node carries its position as its id and reads earlier nodes only.
pub open spec fn nodes_ordered(nodes: Seq<IrNode>) -> bool {
    forall|k: int|
        0 <= k < nodes.len() ==> (#[trigger] nodes[k]).spec_id() == k && forall|j: int|
            0 <= j < nodes[k].operands().len() ==> #[trigger] nodes[k].operands()[j] < k
}

impl EvolutionMethod {
    /// The nodes that the evolution reads.
    pub open spec fn operands(self) -> Seq<NodeId> {
        match self {
            EvolutionMethod::Schrodinger { hamiltonian } => seq![hamiltonian],
            EvolutionMethod::Lindblad { hamiltonian, operators } => seq![hamiltonian]
                + operator_ids(operators@),
        }
    }
}

impl MeasurementType {
    /// The nodes that the measurement reads.
    pub open spec fn operands(self) -> Seq<NodeId> {
        match self {
            MeasurementType::Projective { projectors } => projectors@,
            MeasurementType::POVM { effects } => effects@,
            MeasurementType::Observable { operator } => seq![operator],
        }
    }
}

impl IrExperiment {
    /// Every node that the experiment names is among the first `count`.
    pub open spec fn within(self, count: nat) -> bool {
        &&& self.initial_state < count
        &&& match self.evolution {
            Some(evolution) => forall|j: int|
                0 <= j < evolution.method.operands().len() ==> #[trigger] evolution.method.operands()[j]
                    < count,
            None => true,
        }
        &&& forall|m: int, j: int|
            0 <= m < self.measurements@.len() && 0 <= j
                < self.measurements@[m].measurement_type.operands().len()
                ==> #[trigger] self.measurements@[m].measurement_type.operands()[j] < count
    }
}

impl IrProgram {
    /// The program is a graph without forward references: ids are positions,
    /// operands come earlier, and the experiments name existing nodes.
    pub open spec fn well_formed(&self) -> bool {
        &&& nodes_ordered(self.nodes@)
        &&& forall|e: int|
            0 <= e < self.experiments@.len() ==> (#[trigger] self.experiments@[e]).within(
                self.nodes@.len(),
            )
    }

    /// The empty program.
    pub fn new() -> (p: IrProgram)
        ensures
            p.nodes@.len() == 0,
            p.experiments@.len() == 0,
            p.well_formed(),
    {
        IrProgram { nodes: Vec::new(), experiments: Vec::new() }
    }

    /// Appends a node and returns its position.
    pub fn add_node(&mut self, node: IrNode) -> (id: NodeId)
        ensures
            id == old(self).nodes@.len(),
            final(self).nodes@ == old(self).nodes@.push(node),
            final(self).experiments == old(self).experiments,
    {
        let id = self.nodes.len();
        self.nodes.push(node);
        id
    }
}

} // verus!
