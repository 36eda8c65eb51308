//! Lowering: from a validated program to the graph of operations. Operands
//! are lowered before the node that uses them, so every node reads earlier
//! nodes only.

use crate::arith::Arithmetic;
use crate::ast::is_grid_times;
use crate::ast::{
    EvolutionSpec, Expr, ExperimentBody, LindbladTerm, MatrixLiteral, Statement, StateSpec,
    TimeGrid, VectorLiteral,
};
use crate::error::{EngineError, InternalFault, UnsupportedFeature, ValidationFault};
use crate::ir::{
    EvolutionMethod, IrEvolution, IrExperiment, IrMeasurement, IrNode, IrProgram,
    LindbladOperator, NodeId,
};
use crate::matrix::Matrix;
use crate::ode::embed;
use crate::scalar::{Complex, Real};
use crate::symbols::SymbolTable;
use crate::validator::{
    constant_fault, evaluate_expr_to_complex, evaluate_matrix_literal, evaluate_vector_literal,
    is_constant_value, is_literal_value, is_row_value, literal_fault, row_fault, ValidatedAst,
};
use vstd::prelude::*;

verus! {

/// The lowering pass; holds the graph built so far and the node of each
/// name.
pub struct Lowerer {
    pub ir: IrProgram,
    pub node_map: SymbolTable<NodeId>,
    pub constants: SymbolTable<Real>,
    pub next_id: NodeId,
}

/// The operations with one operand.
pub enum UnaryKind {
    Dagger,
    Expm,
    Trace,
}

/// The operations with two operands.
pub enum BinaryKind {
    Add,
    Mul,
    Tensor,
    Commutator,
}

/// The node of a unary operation.
pub open spec fn unary_node(kind: UnaryKind, id: NodeId, input: NodeId) -> IrNode {
    match kind {
        UnaryKind::Dagger => IrNode::Dagger { id, input },
        UnaryKind::Expm => IrNode::MatrixExp { id, input },
        UnaryKind::Trace => IrNode::Trace { id, input },
    }
}

/// The node of a binary operation.
pub open spec fn binary_node(kind: BinaryKind, id: NodeId, left: NodeId, right: NodeId) -> IrNode {
    match kind {
        BinaryKind::Add => IrNode::MatrixAdd { id, left, right },
        BinaryKind::Mul => IrNode::MatrixMul { id, left, right },
        BinaryKind::Tensor => IrNode::TensorProduct { id, left, right },
        BinaryKind::Commutator => IrNode::Commutator { id, left, right },
    }
}

/// The elements of a grid, row after row.
pub open spec fn row_major(grid: Seq<Seq<Complex>>) -> Seq<Complex>
    decreases grid.len(),
{
    if grid.len() == 0 {
        Seq::empty()
    } else {
        row_major(grid.drop_last()) + grid.last()
    }
}

/// `node` is the leaf with id `id` that holds the matrix literal `lit` under
/// the name `name`: its elements row after row, and its shape.
pub open spec fn is_matrix_leaf<A: Arithmetic>(
    ar: &A,
    constants: Map<Seq<char>, Real>,
    lit: MatrixLiteral,
    name: Seq<char>,
    id: NodeId,
    node: IrNode,
) -> bool {
    match node {
        IrNode::LoadMatrix { id: node_id, name: node_name, data, shape } => node_id == id
            && node_name@ == name && shape.0 == lit.rows@.len() && shape.1
            == lit.rows@[0]@.len() && exists|m: Seq<Seq<Complex>>| #[trigger]
            is_literal_value(ar, constants, lit, m) && data@ == row_major(m),
        _ => false,
    }
}

/// `node` is the leaf with id `id` that holds the vector literal `lit` under
/// the name `name`.
pub open spec fn is_vector_leaf<A: Arithmetic>(
    ar: &A,
    constants: Map<Seq<char>, Real>,
    lit: VectorLiteral,
    name: Seq<char>,
    id: NodeId,
    node: IrNode,
) -> bool {
    match node {
        IrNode::LoadVector { id: node_id, name: node_name, data } => node_id == id && node_name@
            == name && is_row_value(ar, constants, lit.elements@, data@),
        _ => false,
    }
}

/// The segment of a unary operation: the operand's nodes, then its own.
pub open spec fn is_single_lowering(
    inner: Seq<IrNode>,
    input: NodeId,
    kind: UnaryKind,
    base: nat,
    segment: Seq<IrNode>,
    id: NodeId,
) -> bool {
    id == base + inner.len() && segment == inner.push(unary_node(kind, id, input))
}

/// The segment of a binary operation: the left operand's nodes, the right
/// operand's, then its own.
pub open spec fn is_pair_lowering(
    first: Seq<IrNode>,
    left: NodeId,
    second: Seq<IrNode>,
    right: NodeId,
    kind: BinaryKind,
    base: nat,
    segment: Seq<IrNode>,
    id: NodeId,
) -> bool {
    id == base + first.len() + second.len() && segment == (first + second).push(
        binary_node(kind, id, left, right),
    )
}

/// The error that lowering `expr` gives, if it gives one: a name without a
/// node is an internal error; a form without an operation in the graph that
/// is no arithmetic over constants is unsupported; a literal that cannot be
/// evaluated gives its own error. The left operand is looked at first.
pub open spec fn lowering_fault(
    names: Map<Seq<char>, NodeId>,
    constants: Map<Seq<char>, Real>,
    expr: Expr,
) -> Option<EngineError>
    decreases expr,
{
    match expr {
        Expr::Number(_) => None,
        Expr::ComplexNumber(_) => None,
        Expr::Identifier(name) => if names.contains_key(name@) {
            None
        } else {
            Some(EngineError::Internal(InternalFault::UndefinedIdentifier(name)))
        },
        Expr::Matrix(mat) => literal_fault(constants, mat),
        Expr::Vector(vec) => row_fault(constants, vec.elements@, 0),
        Expr::Add(a, b) => match lowering_fault(names, constants, *a) {
            Some(e) => Some(e),
            None => lowering_fault(names, constants, *b),
        },
        Expr::Mul(a, b) => match lowering_fault(names, constants, *a) {
            Some(e) => Some(e),
            None => lowering_fault(names, constants, *b),
        },
        Expr::Tensor(a, b) => match lowering_fault(names, constants, *a) {
            Some(e) => Some(e),
            None => lowering_fault(names, constants, *b),
        },
        Expr::Commutator(a, b) => match lowering_fault(names, constants, *a) {
            Some(e) => Some(e),
            None => lowering_fault(names, constants, *b),
        },
        Expr::Dagger(inner) => lowering_fault(names, constants, *inner),
        Expr::Expm(inner) => lowering_fault(names, constants, *inner),
        Expr::Trace(inner) => lowering_fault(names, constants, *inner),
        _ => if constant_fault(constants, expr) is None {
            None
        } else {
            Some(EngineError::Unsupported(UnsupportedFeature::ExpressionLowering))
        },
    }
}

/// Whether an expression is an operation on operands that are lowered
/// before it.
pub open spec fn has_operands(expr: Expr) -> bool {
    match expr {
        Expr::Add(_, _) => true,
        Expr::Mul(_, _) => true,
        Expr::Tensor(_, _) => true,
        Expr::Commutator(_, _) => true,
        Expr::Dagger(_) => true,
        Expr::Expm(_) => true,
        Expr::Trace(_) => true,
        _ => false,
    }
}

/// `segment` holds the nodes `first` of a left operand, whose value is in
/// node `l`, and then the nodes `rest` that the right operand appended
/// before it failed.
pub open spec fn is_cut_after(
    first: Seq<IrNode>,
    l: NodeId,
    rest: Seq<IrNode>,
    segment: Seq<IrNode>,
) -> bool {
    segment == first + rest
}

/// `segment` are the nodes that lowering `expr` has appended to a graph of
/// `base` nodes when it fails: none where the expression itself is at
/// fault, a name without a node, a form that is not supported or a literal
/// that cannot be evaluated; for an operation, the nodes of the operands
/// that were lowered before the one that fails, and what that one
/// appended. No node is taken back.
pub open spec fn is_cut_short<A: Arithmetic>(
    ar: &A,
    names: Map<Seq<char>, NodeId>,
    constants: Map<Seq<char>, Real>,
    base: nat,
    expr: Expr,
    segment: Seq<IrNode>,
) -> bool
    decreases expr,
{
    match expr {
        Expr::Add(a, b) => if lowering_fault(names, constants, *a) is Some {
            is_cut_short(ar, names, constants, base, *a, segment)
        } else {
            exists|first: Seq<IrNode>, l: NodeId, rest: Seq<IrNode>|
                is_lowered(ar, names, constants, base, *a, first, l) && is_cut_short(
                    ar,
                    names,
                    constants,
                    base + first.len(),
                    *b,
                    rest,
                ) && #[trigger] is_cut_after(first, l, rest, segment)
        },
        Expr::Mul(a, b) => if lowering_fault(names, constants, *a) is Some {
            is_cut_short(ar, names, constants, base, *a, segment)
        } else {
            exists|first: Seq<IrNode>, l: NodeId, rest: Seq<IrNode>|
                is_lowered(ar, names, constants, base, *a, first, l) && is_cut_short(
                    ar,
                    names,
                    constants,
                    base + first.len(),
                    *b,
                    rest,
                ) && #[trigger] is_cut_after(first, l, rest, segment)
        },
        Expr::Tensor(a, b) => if lowering_fault(names, constants, *a) is Some {
            is_cut_short(ar, names, constants, base, *a, segment)
        } else {
            exists|first: Seq<IrNode>, l: NodeId, rest: Seq<IrNode>|
                is_lowered(ar, names, constants, base, *a, first, l) && is_cut_short(
                    ar,
                    names,
                    constants,
                    base + first.len(),
                    *b,
                    rest,
                ) && #[trigger] is_cut_after(first, l, rest, segment)
        },
        Expr::Commutator(a, b) => if lowering_fault(names, constants, *a) is Some {
            is_cut_short(ar, names, constants, base, *a, segment)
        } else {
            exists|first: Seq<IrNode>, l: NodeId, rest: Seq<IrNode>|
                is_lowered(ar, names, constants, base, *a, first, l) && is_cut_short(
                    ar,
                    names,
                    constants,
                    base + first.len(),
                    *b,
                    rest,
                ) && #[trigger] is_cut_after(first, l, rest, segment)
        },
        Expr::Dagger(inner) => is_cut_short(ar, names, constants, base, *inner, segment),
        Expr::Expm(inner) => is_cut_short(ar, names, constants, base, *inner, segment),
        Expr::Trace(inner) => is_cut_short(ar, names, constants, base, *inner, segment),
        _ => segment == Seq::<IrNode>::empty(),
    }
}

/// `segment` are the nodes that lowering `expr` appends to a graph of
/// `base` nodes, and `id` the node that holds its value: a number becomes a
/// leaf; a name resolves to its node and appends nothing; an operation
/// appends its operands' nodes, left first, and then its own; any other
/// arithmetic over constants is evaluated and becomes a leaf.
pub open spec fn is_lowered<A: Arithmetic>(
    ar: &A,
    names: Map<Seq<char>, NodeId>,
    constants: Map<Seq<char>, Real>,
    base: nat,
    expr: Expr,
    segment: Seq<IrNode>,
    id: NodeId,
) -> bool
    decreases expr,
{
    match expr {
        Expr::Number(x) => id == base && segment == seq![
            IrNode::Scalar { id, value: embed(x) },
        ],
        Expr::ComplexNumber(c) => id == base && segment == seq![IrNode::Scalar { id, value: c }],
        Expr::Identifier(name) => names.contains_key(name@) && id == names[name@] && segment
            == Seq::<IrNode>::empty(),
        Expr::Matrix(mat) => id == base && segment.len() == 1 && is_matrix_leaf(
            ar,
            constants,
            mat,
            "literal"@,
            id,
            segment[0],
        ),
        Expr::Vector(vec) => id == base && segment.len() == 1 && is_vector_leaf(
            ar,
            constants,
            vec,
            "literal"@,
            id,
            segment[0],
        ),
        Expr::Add(a, b) => exists|first: Seq<IrNode>, l: NodeId, second: Seq<IrNode>, r: NodeId|
            is_lowered(ar, names, constants, base, *a, first, l) && is_lowered(
                ar,
                names,
                constants,
                base + first.len(),
                *b,
                second,
                r,
            ) && #[trigger] is_pair_lowering(first, l, second, r, BinaryKind::Add, base, segment, id),
        Expr::Mul(a, b) => exists|first: Seq<IrNode>, l: NodeId, second: Seq<IrNode>, r: NodeId|
            is_lowered(ar, names, constants, base, *a, first, l) && is_lowered(
                ar,
                names,
                constants,
                base + first.len(),
                *b,
                second,
                r,
            ) && #[trigger] is_pair_lowering(first, l, second, r, BinaryKind::Mul, base, segment, id),
        Expr::Tensor(a, b) => exists|
            first: Seq<IrNode>,
            l: NodeId,
            second: Seq<IrNode>,
            r: NodeId,
        |
            is_lowered(ar, names, constants, base, *a, first, l) && is_lowered(
                ar,
                names,
                constants,
                base + first.len(),
                *b,
                second,
                r,
            ) && #[trigger] is_pair_lowering(
                first,
                l,
                second,
                r,
                BinaryKind::Tensor,
                base,
                segment,
                id,
            ),
        Expr::Commutator(a, b) => exists|
            first: Seq<IrNode>,
            l: NodeId,
            second: Seq<IrNode>,
            r: NodeId,
        |
            is_lowered(ar, names, constants, base, *a, first, l) && is_lowered(
                ar,
                names,
                constants,
                base + first.len(),
                *b,
                second,
                r,
            ) && #[trigger] is_pair_lowering(
                first,
                l,
                second,
                r,
                BinaryKind::Commutator,
                base,
                segment,
                id,
            ),
        Expr::Dagger(x) => exists|inner: Seq<IrNode>, input: NodeId|
            is_lowered(ar, names, constants, base, *x, inner, input)
                && #[trigger] is_single_lowering(
                inner,
                input,
                UnaryKind::Dagger,
                base,
                segment,
                id,
            ),
        Expr::Expm(x) => exists|inner: Seq<IrNode>, input: NodeId|
            is_lowered(ar, names, constants, base, *x, inner, input)
                && #[trigger] is_single_lowering(inner, input, UnaryKind::Expm, base, segment, id),
        Expr::Trace(x) => exists|inner: Seq<IrNode>, input: NodeId|
            is_lowered(ar, names, constants, base, *x, inner, input)
                && #[trigger] is_single_lowering(
                inner,
                input,
                UnaryKind::Trace,
                base,
                segment,
                id,
            ),
        _ => id == base && exists|v: Complex| #[trigger]
            is_constant_value(ar, constants, expr, v) && segment == seq![
                IrNode::Scalar { id, value: v },
            ],
    }
}

/// Whether every name of a table is bound to one of the first `count`
/// nodes.
pub open spec fn names_within(entries: Seq<(String, NodeId)>, count: nat) -> bool {
    forall|i: int| 0 <= i < entries.len() ==> (#[trigger] entries[i]).1 < count
}

impl Lowerer {
    /// The counter equals the number of nodes, the nodes read earlier nodes
    /// only, and names and experiments refer to existing nodes.
    pub open spec fn wf(&self) -> bool {
        &&& self.next_id == self.ir.nodes@.len()
        &&& self.ir.well_formed()
        &&& names_within(self.node_map.entries@, self.ir.nodes@.len())
    }

    /// A lowerer with an empty graph.
    pub fn new() -> (l: Lowerer)
        ensures
            l.wf(),
            l.next_id == 0,
            l.ir.nodes@.len() == 0,
            l.ir.experiments@.len() == 0,
            l.node_map@ == Map::<Seq<char>, NodeId>::empty(),
            l.constants@ == Map::<Seq<char>, Real>::empty(),
    {
        Lowerer {
            ir: IrProgram::new(),
            node_map: SymbolTable::new(),
            constants: SymbolTable::new(),
            next_id: 0,
        }
    }

    /// Appends a node that carries the next id and reads earlier nodes only.
    fn emit(&mut self, node: IrNode) -> (id: NodeId)
        requires
            old(self).wf(),
            node.spec_id() == old(self).next_id,
            forall|j: int|
                0 <= j < node.operands().len() ==> #[trigger] node.operands()[j] < old(self).next_id,
        ensures
            final(self).wf(),
            id == old(self).next_id,
            final(self).ir.nodes@ == old(self).ir.nodes@.push(node),
            final(self).ir.experiments == old(self).ir.experiments,
            final(self).node_map == old(self).node_map,
            final(self).constants == old(self).constants,
    {
        let id = self.next_id;
        let ghost before = self.ir.nodes@;
        self.ir.nodes.push(node);
        self.next_id = self.ir.nodes.len();
        proof {
            assert forall|k: int| 0 <= k < self.ir.nodes@.len() implies (
            #[trigger] self.ir.nodes@[k]).spec_id() == k && forall|j: int|
                0 <= j < self.ir.nodes@[k].operands().len()
                    ==> #[trigger] self.ir.nodes@[k].operands()[j] < k by {
                if k < before.len() {
                    assert(self.ir.nodes@[k] == before[k]);
                }
            }
        }
        id
    }

    /// The id that the next node will carry.
    pub fn allocate_id(&self) -> (id: NodeId)
        ensures
            id == self.next_id,
    {
        self.next_id
    }

    /// Lowers an expression: appends its nodes and returns the node that
    /// holds its value. Where it fails, the nodes of the operands that were
    /// lowered before stay appended, and nothing else is.
    pub fn lower_expr<A: Arithmetic>(&mut self, ar: &A, expr: &Expr) -> (r: Result<
        NodeId,
        EngineError,
    >)
        requires
            old(self).wf(),
        ensures
            final(self).wf(),
            final(self).node_map == old(self).node_map,
            final(self).constants == old(self).constants,
            final(self).ir.experiments == old(self).ir.experiments,
            old(self).ir.nodes@.len() <= final(self).ir.nodes@.len(),
            final(self).ir.nodes@.subrange(0, old(self).ir.nodes@.len() as int) == old(self).ir.nodes@,
            match r {
                Ok(id) => id < final(self).ir.nodes@.len() && lowering_fault(
                    old(self).node_map@,
                    old(self).constants@,
                    *expr,
                ) is None && is_lowered(
                    ar,
                    old(self).node_map@,
                    old(self).constants@,
                    old(self).ir.nodes@.len(),
                    *expr,
                    final(self).ir.nodes@.subrange(
                        old(self).ir.nodes@.len() as int,
                        final(self).ir.nodes@.len() as int,
                    ),
                    id,
                ),
                Err(e) => lowering_fault(old(self).node_map@, old(self).constants@, *expr)
                    == Some(e) && is_cut_short(
                    ar,
                    old(self).node_map@,
                    old(self).constants@,
                    old(self).ir.nodes@.len(),
                    *expr,
                    final(self).ir.nodes@.subrange(
                        old(self).ir.nodes@.len() as int,
                        final(self).ir.nodes@.len() as int,
                    ),
                ),
            },
            r is Err && !has_operands(*expr) ==> final(self).ir.nodes@ == old(self).ir.nodes@,
        decreases expr,
    {
        let ghost start = self.ir.nodes@;
        let ghost base = self.ir.nodes@.len();
        match expr {
            Expr::Number(x) => {
                let id = self.next_id;
                self.emit(IrNode::Scalar { id, value: Complex::from_real(*x) });
                assert(self.ir.nodes@.subrange(base as int, self.ir.nodes@.len() as int) =~= seq![
                    IrNode::Scalar { id, value: embed(*x) },
                ]);
                assert(self.ir.nodes@.subrange(0, base as int) =~= start);
                Ok(id)
            },
            Expr::ComplexNumber(c) => {
                let id = self.next_id;
                self.emit(IrNode::Scalar { id, value: *c });
                assert(self.ir.nodes@.subrange(base as int, self.ir.nodes@.len() as int) =~= seq![
                    IrNode::Scalar { id, value: *c },
                ]);
                assert(self.ir.nodes@.subrange(0, base as int) =~= start);
                Ok(id)
            },
            Expr::Identifier(name) => {
                assert(self.ir.nodes@.subrange(0, base as int) =~= start);
                assert(self.ir.nodes@.subrange(base as int, base as int) =~= Seq::<
                    IrNode,
                >::empty());
                assert(self.ir.nodes@ =~= start);
                match self.node_map.get(name) {
                    Some(id) => Ok(*id),
                    None => Err(
                        EngineError::Internal(InternalFault::UndefinedIdentifier(name.clone())),
                    ),
                }
            },
            Expr::Matrix(mat) => {
                let r = self.lower_matrix_literal(ar, "literal", mat);
                assert(r is Err ==> self.ir.nodes@.subrange(base as int, base as int) =~= Seq::<
                    IrNode,
                >::empty());
                r
            },
            Expr::Vector(vec) => {
                let r = self.lower_vector_literal(ar, "literal", vec);
                assert(r is Err ==> self.ir.nodes@.subrange(base as int, base as int) =~= Seq::<
                    IrNode,
                >::empty());
                r
            },
            Expr::Add(a, b) => self.lower_binary(ar, expr, a, b, BinaryKind::Add),
            Expr::Mul(a, b) => self.lower_binary(ar, expr, a, b, BinaryKind::Mul),
            Expr::Tensor(a, b) => self.lower_binary(ar, expr, a, b, BinaryKind::Tensor),
            Expr::Commutator(a, b) => self.lower_binary(ar, expr, a, b, BinaryKind::Commutator),
            Expr::Dagger(x) => self.lower_unary(ar, expr, x, UnaryKind::Dagger),
            Expr::Expm(x) => self.lower_unary(ar, expr, x, UnaryKind::Expm),
            Expr::Trace(x) => self.lower_unary(ar, expr, x, UnaryKind::Trace),
            _ => {
                match evaluate_expr_to_complex(ar, &self.constants, expr) {
                    Ok(v) => {
                        let id = self.next_id;
                        self.emit(IrNode::Scalar { id, value: v });
                        assert(self.ir.nodes@.subrange(base as int, self.ir.nodes@.len() as int)
                            =~= seq![IrNode::Scalar { id, value: v }]);
                        assert(self.ir.nodes@.subrange(0, base as int) =~= start);
                        Ok(id)
                    },
                    Err(_) => {
                        assert(self.ir.nodes@.subrange(0, base as int) =~= start);
                        assert(self.ir.nodes@.subrange(base as int, base as int) =~= Seq::<
                            IrNode,
                        >::empty());
                        assert(self.ir.nodes@ =~= start);
                        Err(EngineError::Unsupported(UnsupportedFeature::ExpressionLowering))
                    },
                }
            },
        }
    }

    /// Lowers an operation with one operand.
    fn lower_unary<A: Arithmetic>(
        &mut self,
        ar: &A,
        whole: &Expr,
        x: &Expr,
        kind: UnaryKind,
    ) -> (r: Result<NodeId, EngineError>)
        requires
            old(self).wf(),
            match kind {
                UnaryKind::Dagger => *whole == Expr::Dagger(Box::new(*x)),
                UnaryKind::Expm => *whole == Expr::Expm(Box::new(*x)),
                UnaryKind::Trace => *whole == Expr::Trace(Box::new(*x)),
            },
        ensures
            final(self).wf(),
            final(self).node_map == old(self).node_map,
            final(self).constants == old(self).constants,
            final(self).ir.experiments == old(self).ir.experiments,
            old(self).ir.nodes@.len() <= final(self).ir.nodes@.len(),
            final(self).ir.nodes@.subrange(0, old(self).ir.nodes@.len() as int) == old(self).ir.nodes@,
            match r {
                Ok(id) => id < final(self).ir.nodes@.len() && lowering_fault(
                    old(self).node_map@,
                    old(self).constants@,
                    *whole,
                ) is None && is_lowered(
                    ar,
                    old(self).node_map@,
                    old(self).constants@,
                    old(self).ir.nodes@.len(),
                    *whole,
                    final(self).ir.nodes@.subrange(
                        old(self).ir.nodes@.len() as int,
                        final(self).ir.nodes@.len() as int,
                    ),
                    id,
                ),
                Err(e) => lowering_fault(old(self).node_map@, old(self).constants@, *whole)
                    == Some(e) && is_cut_short(
                    ar,
                    old(self).node_map@,
                    old(self).constants@,
                    old(self).ir.nodes@.len(),
                    *whole,
                    final(self).ir.nodes@.subrange(
                        old(self).ir.nodes@.len() as int,
                        final(self).ir.nodes@.len() as int,
                    ),
                ),
            },
        decreases whole, 0nat,
    {
        let ghost start = self.ir.nodes@;
        let ghost base = self.ir.nodes@.len();
        let input = match self.lower_expr(ar, x) {
            Ok(id) => id,
            Err(e) => {
                return Err(e);
            },
        };
        let ghost inner = self.ir.nodes@.subrange(base as int, self.ir.nodes@.len() as int);
        let id = self.next_id;
        let node = match kind {
            UnaryKind::Dagger => IrNode::Dagger { id, input },
            UnaryKind::Expm => IrNode::MatrixExp { id, input },
            UnaryKind::Trace => IrNode::Trace { id, input },
        };
        assert(node == unary_node(kind, id, input));
        assert(node.operands() =~= seq![input]);
        self.emit(node);
        proof {
            let segment = self.ir.nodes@.subrange(base as int, self.ir.nodes@.len() as int);
            assert(segment =~= inner.push(node));
            assert(self.ir.nodes@.subrange(0, base as int) =~= start);
            assert(is_lowered(ar, old(self).node_map@, old(self).constants@, base, *x, inner, input)
                && is_single_lowering(inner, input, kind, base, segment, id));
        }
        Ok(id)
    }

    /// Lowers an operation with two operands, the left one first.
    fn lower_binary<A: Arithmetic>(
        &mut self,
        ar: &A,
        whole: &Expr,
        a: &Expr,
        b: &Expr,
        kind: BinaryKind,
    ) -> (r: Result<NodeId, EngineError>)
        requires
            old(self).wf(),
            match kind {
                BinaryKind::Add => *whole == Expr::Add(Box::new(*a), Box::new(*b)),
                BinaryKind::Mul => *whole == Expr::Mul(Box::new(*a), Box::new(*b)),
                BinaryKind::Tensor => *whole == Expr::Tensor(Box::new(*a), Box::new(*b)),
                BinaryKind::Commutator => *whole == Expr::Commutator(Box::new(*a), Box::new(*b)),
            },
        ensures
            final(self).wf(),
            final(self).node_map == old(self).node_map,
            final(self).constants == old(self).constants,
            final(self).ir.experiments == old(self).ir.experiments,
            old(self).ir.nodes@.len() <= final(self).ir.nodes@.len(),
            final(self).ir.nodes@.subrange(0, old(self).ir.nodes@.len() as int) == old(self).ir.nodes@,
            match r {
                Ok(id) => id < final(self).ir.nodes@.len() && lowering_fault(
                    old(self).node_map@,
                    old(self).constants@,
                    *whole,
                ) is None && is_lowered(
                    ar,
                    old(self).node_map@,
                    old(self).constants@,
                    old(self).ir.nodes@.len(),
                    *whole,
                    final(self).ir.nodes@.subrange(
                        old(self).ir.nodes@.len() as int,
                        final(self).ir.nodes@.len() as int,
                    ),
                    id,
                ),
                Err(e) => lowering_fault(old(self).node_map@, old(self).constants@, *whole)
                    == Some(e) && is_cut_short(
                    ar,
                    old(self).node_map@,
                    old(self).constants@,
                    old(self).ir.nodes@.len(),
                    *whole,
                    final(self).ir.nodes@.subrange(
                        old(self).ir.nodes@.len() as int,
                        final(self).ir.nodes@.len() as int,
                    ),
                ),
            },
        decreases whole, 0nat,
    {
        let ghost start = self.ir.nodes@;
        let ghost base = self.ir.nodes@.len();
        let left = match self.lower_expr(ar, a) {
            Ok(id) => id,
            Err(e) => {
                return Err(e);
            },
        };
        let ghost first = self.ir.nodes@.subrange(base as int, self.ir.nodes@.len() as int);
        let ghost middle = self.ir.nodes@;
        let right = match self.lower_expr(ar, b) {
            Ok(id) => id,
            Err(e) => {
                assert(self.ir.nodes@.subrange(0, base as int) =~= middle.subrange(
                    0,
                    middle.len() as int,
                ).subrange(0, base as int));
                assert(self.ir.nodes@.subrange(0, base as int) =~= start);
                proof {
                    let rest = self.ir.nodes@.subrange(
                        middle.len() as int,
                        self.ir.nodes@.len() as int,
                    );
                    let segment = self.ir.nodes@.subrange(
                        base as int,
                        self.ir.nodes@.len() as int,
                    );
                    assert(self.ir.nodes@.subrange(0, middle.len() as int) == middle);
                    assert(segment =~= first + rest);
                    assert(is_lowered(
                        ar,
                        old(self).node_map@,
                        old(self).constants@,
                        base,
                        *a,
                        first,
                        left,
                    ) && is_cut_short(
                        ar,
                        old(self).node_map@,
                        old(self).constants@,
                        base + first.len(),
                        *b,
                        rest,
                    ) && is_cut_after(first, left, rest, segment));
                }
                return Err(e);
            },
        };
        let ghost second = self.ir.nodes@.subrange(middle.len() as int, self.ir.nodes@.len() as int);
        let id = self.next_id;
        let node = match kind {
            BinaryKind::Add => IrNode::MatrixAdd { id, left, right },
            BinaryKind::Mul => IrNode::MatrixMul { id, left, right },
            BinaryKind::Tensor => IrNode::TensorProduct { id, left, right },
            BinaryKind::Commutator => IrNode::Commutator { id, left, right },
        };
        assert(node == binary_node(kind, id, left, right));
        assert(node.operands() =~= seq![left, right]);
        let ghost after_operands = self.ir.nodes@;
        self.emit(node);
        proof {
            let segment = self.ir.nodes@.subrange(base as int, self.ir.nodes@.len() as int);
            assert(after_operands.subrange(0, middle.len() as int) == middle);
            assert(after_operands.subrange(base as int, middle.len() as int) =~= first);
            assert(segment =~= (first + second).push(node));
            assert(self.ir.nodes@.subrange(0, base as int) =~= start);
            assert(is_lowered(ar, old(self).node_map@, old(self).constants@, base, *a, first, left)
                && is_lowered(
                ar,
                old(self).node_map@,
                old(self).constants@,
                base + first.len(),
                *b,
                second,
                right,
            ) && is_pair_lowering(first, left, second, right, kind, base, segment, id));
        }
        Ok(id)
    }

    /// Lowers a matrix literal to a leaf that holds its elements row after
    /// row.
    pub fn lower_matrix_literal<A: Arithmetic>(
        &mut self,
        ar: &A,
        name: &str,
        mat: &MatrixLiteral,
    ) -> (r: Result<NodeId, EngineError>)
        requires
            old(self).wf(),
        ensures
            final(self).wf(),
            final(self).node_map == old(self).node_map,
            final(self).constants == old(self).constants,
            final(self).ir.experiments == old(self).ir.experiments,
            old(self).ir.nodes@.len() <= final(self).ir.nodes@.len(),
            final(self).ir.nodes@.subrange(0, old(self).ir.nodes@.len() as int) == old(self).ir.nodes@,
            match r {
                Ok(id) => literal_fault(old(self).constants@, *mat) is None && id == old(self).ir.nodes@.len() && final(self).ir.nodes@.len() == id + 1 && is_matrix_leaf(
                    ar,
                    old(self).constants@,
                    *mat,
                    name@,
                    id,
                    final(self).ir.nodes@[id as int],
                ),
                Err(e) => literal_fault(old(self).constants@, *mat) == Some(e) && final(self).ir.nodes@ == old(self).ir.nodes@,
            },
    {
        let ghost start = self.ir.nodes@;
        assert(self.ir.nodes@.subrange(0, start.len() as int) =~= start);
        let m = match evaluate_matrix_literal(ar, &self.constants, mat) {
            Ok(m) => m,
            Err(e) => {
                return Err(e);
            },
        };
        let mut data: Vec<Complex> = Vec::new();
        let mut i: usize = 0;
        assert(m@.take(0) =~= Seq::<Seq<Complex>>::empty());
        while i < m.rows()
            invariant
                i <= m.nrows(),
                m.wf(),
                data@ == row_major(m@.take(i as int)),
            decreases m.nrows() - i,
        {
            let ghost prior = data@;
            let mut j: usize = 0;
            while j < m.cols()
                invariant
                    j <= m.ncols(),
                    i < m.nrows(),
                    m.wf(),
                    data@ == prior + m@[i as int].take(j as int),
                decreases m.ncols() - j,
            {
                data.push(m.get(i, j));
                assert(m@[i as int].take(j as int + 1) =~= m@[i as int].take(j as int).push(
                    m@[i as int][j as int],
                ));
                assert(data@ =~= prior + m@[i as int].take(j as int + 1));
                j += 1;
            }
            proof {
                let upto = m@.take(i as int + 1);
                assert(upto.drop_last() =~= m@.take(i as int));
                assert(upto.last() == m@[i as int]);
                assert(m@[i as int].take(m.ncols() as int) =~= m@[i as int]);
            }
            i += 1;
        }
        assert(m@.take(m.nrows() as int) =~= m@);
        let id = self.next_id;
        let node = IrNode::LoadMatrix {
            id,
            name: name.to_owned(),
            data,
            shape: (m.rows(), m.cols()),
        };
        assert(node.operands() =~= Seq::<NodeId>::empty());
        assert(is_literal_value(ar, self.constants@, *mat, m@) && data@ == row_major(m@));
        assert(is_matrix_leaf(ar, self.constants@, *mat, name@, id, node));
        self.emit(node);
        assert(self.ir.nodes@.subrange(0, start.len() as int) =~= start);
        Ok(id)
    }

    /// Lowers a vector literal to a leaf that holds its elements.
    pub fn lower_vector_literal<A: Arithmetic>(
        &mut self,
        ar: &A,
        name: &str,
        vec: &VectorLiteral,
    ) -> (r: Result<NodeId, EngineError>)
        requires
            old(self).wf(),
        ensures
            final(self).wf(),
            final(self).node_map == old(self).node_map,
            final(self).constants == old(self).constants,
            final(self).ir.experiments == old(self).ir.experiments,
            old(self).ir.nodes@.len() <= final(self).ir.nodes@.len(),
            final(self).ir.nodes@.subrange(0, old(self).ir.nodes@.len() as int) == old(self).ir.nodes@,
            match r {
                Ok(id) => row_fault(old(self).constants@, vec.elements@, 0) is None && id == old(self).ir.nodes@.len() && final(self).ir.nodes@.len() == id + 1 && is_vector_leaf(
                    ar,
                    old(self).constants@,
                    *vec,
                    name@,
                    id,
                    final(self).ir.nodes@[id as int],
                ),
                Err(e) => row_fault(old(self).constants@, vec.elements@, 0) == Some(e) && final(self).ir.nodes@ == old(self).ir.nodes@,
            },
    {
        let ghost start = self.ir.nodes@;
        assert(self.ir.nodes@.subrange(0, start.len() as int) =~= start);
        let data = match evaluate_vector_literal(ar, &self.constants, vec) {
            Ok(d) => d,
            Err(e) => {
                return Err(e);
            },
        };
        let id = self.next_id;
        let node = IrNode::LoadVector { id, name: name.to_owned(), data };
        assert(node.operands() =~= Seq::<NodeId>::empty());
        self.emit(node);
        assert(self.ir.nodes@.subrange(0, start.len() as int) =~= start);
        Ok(id)
    }
}

/// The error of the first dissipation term at or after `from` that cannot
/// be lowered: an operator without a node is an internal error, a rate that
/// is not a number literal is unsupported.
pub open spec fn terms_fault(names: Map<Seq<char>, NodeId>, terms: Seq<LindbladTerm>, from: int) -> Option<
    EngineError,
>
    decreases terms.len() - from,
{
    if from < 0 || from >= terms.len() {
        None
    } else if !names.contains_key(terms[from].operator_name@) {
        Some(EngineError::Internal(InternalFault::OperatorNotFound(terms[from].operator_name)))
    } else if !(*terms[from].rate is Number) {
        Some(EngineError::Unsupported(UnsupportedFeature::NonConstantRate))
    } else {
        terms_fault(names, terms, from + 1)
    }
}

/// The dissipation operator that a term lowers to.
pub open spec fn lowered_term(names: Map<Seq<char>, NodeId>, term: LindbladTerm) -> LindbladOperator {
    LindbladOperator { operator: names[term.operator_name@], rate: (*term.rate)->Number_0 }
}

/// The error that lowering an evolution clause gives, if it gives one: a
/// Hamiltonian without a node, a regular grid with more points than the
/// machine's word can count, or the error of a dissipation term.
pub open spec fn evolution_fault(names: Map<Seq<char>, NodeId>, evol: EvolutionSpec) -> Option<
    EngineError,
> {
    if !names.contains_key(evol.hamiltonian_name@) {
        Some(EngineError::Internal(InternalFault::HamiltonianNotFound(evol.hamiltonian_name)))
    } else if evol.timegrid.point_count() > usize::MAX {
        Some(EngineError::Internal(InternalFault::CounterOverflow))
    } else {
        terms_fault(names, evol.lindblad_ops@, 0)
    }
}

/// `lowered` is what an evolution clause lowers to: the time points of its
/// grid, and unitary evolution under its Hamiltonian where it has no
/// dissipation terms, else open-system evolution with the terms in their
/// order.
pub open spec fn is_evolution_lowered<A: Arithmetic>(
    ar: &A,
    names: Map<Seq<char>, NodeId>,
    evol: EvolutionSpec,
    lowered: IrEvolution,
) -> bool {
    &&& is_grid_times(ar, evol.timegrid, lowered.times@)
    &&& match lowered.method {
        EvolutionMethod::Schrodinger { hamiltonian } => evol.lindblad_ops@.len() == 0
            && hamiltonian == names[evol.hamiltonian_name@],
        EvolutionMethod::Lindblad { hamiltonian, operators } => evol.lindblad_ops@.len() > 0
            && hamiltonian == names[evol.hamiltonian_name@] && operators@.len()
            == evol.lindblad_ops@.len() && forall|k: int|
            0 <= k < operators@.len() ==> #[trigger] operators@[k] == lowered_term(
                names,
                evol.lindblad_ops@[k],
            ),
    }
}

/// The error that lowering an experiment gives, if it gives one: a missing
/// initial state, the error of its literal, or that of the evolution
/// clause.
pub open spec fn experiment_fault(
    names: Map<Seq<char>, NodeId>,
    constants: Map<Seq<char>, Real>,
    body: ExperimentBody,
) -> Option<EngineError> {
    match body.init {
        None => Some(EngineError::ValidationError(ValidationFault::MissingInitialState)),
        Some(init) => {
            let literal = match init {
                StateSpec::Ket(vec) => row_fault(constants, vec.elements@, 0),
                StateSpec::Rho(mat) => literal_fault(constants, mat),
            };
            match literal {
                Some(e) => Some(e),
                None => match body.evolution {
                    Some(evol) => evolution_fault(names, evol),
                    None => None,
                },
            }
        },
    }
}

/// `leaf` holds the initial state of an experiment, and `lowered` is what
/// the experiment lowers to: its name, the leaf as initial state, the
/// lowered evolution clause if there is one, and no measurements.
pub open spec fn is_experiment_lowered<A: Arithmetic>(
    ar: &A,
    names: Map<Seq<char>, NodeId>,
    constants: Map<Seq<char>, Real>,
    name: Seq<char>,
    body: ExperimentBody,
    id: NodeId,
    leaf: IrNode,
    lowered: IrExperiment,
) -> bool {
    &&& lowered.name@ == name
    &&& lowered.initial_state == id
    &&& lowered.measurements@.len() == 0
    &&& match body.init {
        Some(StateSpec::Ket(vec)) => is_vector_leaf(ar, constants, vec, "init_ket"@, id, leaf),
        Some(StateSpec::Rho(mat)) => is_matrix_leaf(ar, constants, mat, "init_rho"@, id, leaf),
        None => false,
    }
    &&& match body.evolution {
        Some(evol) => lowered.evolution is Some && is_evolution_lowered(
            ar,
            names,
            evol,
            lowered.evolution->Some_0,
        ),
        None => lowered.evolution is None,
    }
}

/// What the lowering pass holds at a point of the program.
pub struct Progress {
    pub nodes: Seq<IrNode>,
    pub experiments: Seq<IrExperiment>,
    pub names: Map<Seq<char>, NodeId>,
    pub constants: Map<Seq<char>, Real>,
}

/// The error that lowering a statement gives, if it gives one.
pub open spec fn statement_fault(
    names: Map<Seq<char>, NodeId>,
    constants: Map<Seq<char>, Real>,
    stmt: Statement,
) -> Option<EngineError> {
    match stmt {
        Statement::MatrixDecl { value, .. } => literal_fault(constants, value),
        Statement::HamiltonianDef { expr, .. } => lowering_fault(names, constants, *expr),
        Statement::Experiment { body, .. } => experiment_fault(names, constants, body),
        _ => None,
    }
}

/// `after` are the names `before` with `name` bound to the node `id`.
pub open spec fn is_bound(
    before: Map<Seq<char>, NodeId>,
    name: Seq<char>,
    id: NodeId,
    after: Map<Seq<char>, NodeId>,
) -> bool {
    after == before.insert(name, id)
}

/// `after` is what the pass holds once `stmt` is lowered: a constant
/// becomes a leaf and is bound to it; a matrix becomes a leaf and is bound
/// to it; a Hamiltonian is bound to the node of its expression; an
/// experiment appends the leaf of its initial state and itself; other
/// statements change nothing.
pub open spec fn is_statement_lowered<A: Arithmetic>(
    ar: &A,
    before: Progress,
    stmt: Statement,
    after: Progress,
) -> bool {
    match stmt {
        Statement::ConstDecl { name, value } => after == (Progress {
            nodes: before.nodes.push(
                IrNode::Scalar { id: before.nodes.len() as usize, value: embed(value) },
            ),
            experiments: before.experiments,
            names: before.names.insert(name@, before.nodes.len() as usize),
            constants: before.constants.insert(name@, value),
        }),
        Statement::MatrixDecl { name, value } => after.nodes.len() == before.nodes.len() + 1
            && after.nodes.subrange(0, before.nodes.len() as int) == before.nodes
            && is_matrix_leaf(
            ar,
            before.constants,
            value,
            name@,
            before.nodes.len() as usize,
            after.nodes[before.nodes.len() as int],
        ) && after.experiments == before.experiments && after.names == before.names.insert(
            name@,
            before.nodes.len() as usize,
        ) && after.constants == before.constants,
        Statement::HamiltonianDef { name, expr, .. } => exists|id: NodeId|
            is_lowered(
                ar,
                before.names,
                before.constants,
                before.nodes.len(),
                *expr,
                after.nodes.subrange(before.nodes.len() as int, after.nodes.len() as int),
                id,
            ) && before.nodes.len() <= after.nodes.len() && after.nodes.subrange(
                0,
                before.nodes.len() as int,
            ) == before.nodes && after.experiments == before.experiments && #[trigger] is_bound(
                before.names,
                name@,
                id,
                after.names,
            ) && after.constants == before.constants,
        Statement::Experiment { name, body } => after.nodes.len() == before.nodes.len() + 1
            && after.nodes.subrange(0, before.nodes.len() as int) == before.nodes
            && after.experiments.len() == before.experiments.len() + 1
            && after.experiments.subrange(0, before.experiments.len() as int)
            == before.experiments && is_experiment_lowered(
            ar,
            before.names,
            before.constants,
            name@,
            body,
            before.nodes.len() as usize,
            after.nodes[before.nodes.len() as int],
            after.experiments[before.experiments.len() as int],
        ) && after.names == before.names && after.constants == before.constants,
        _ => after == before,
    }
}

/// The first `count` statements are lowered, and `state` is what the pass
/// holds after them, having started from `init`.
pub open spec fn is_lowered_upto<A: Arithmetic>(
    ar: &A,
    init: Progress,
    stmts: Seq<Statement>,
    count: nat,
    state: Progress,
) -> bool
    decreases count,
{
    if count == 0 {
        state == init
    } else {
        exists|mid: Progress|
            is_lowered_upto(ar, init, stmts, (count - 1) as nat, mid)
                && #[trigger] is_statement_lowered(ar, mid, stmts[count - 1], state)
    }
}

/// Statement `k` is the first that cannot be lowered, with error `e`.
pub open spec fn lowering_fails_at<A: Arithmetic>(
    ar: &A,
    init: Progress,
    stmts: Seq<Statement>,
    k: int,
    e: EngineError,
) -> bool {
    0 <= k < stmts.len() && exists|mid: Progress|
        is_lowered_upto(ar, init, stmts, k as nat, mid) && #[trigger] stops_with(mid, stmts[k], e)
}

/// Lowering `stmt` from what the pass holds gives the error `e`.
pub open spec fn stops_with(mid: Progress, stmt: Statement, e: EngineError) -> bool {
    statement_fault(mid.names, mid.constants, stmt) == Some(e)
}

impl Lowerer {
    /// What the pass holds.
    pub open spec fn progress(&self) -> Progress {
        Progress {
            nodes: self.ir.nodes@,
            experiments: self.ir.experiments@,
            names: self.node_map@,
            constants: self.constants@,
        }
    }

    /// Binds a name to a node.
    fn bind(&mut self, name: String, id: NodeId)
        requires
            old(self).wf(),
            id < old(self).ir.nodes@.len(),
        ensures
            final(self).wf(),
            final(self).ir == old(self).ir,
            final(self).constants == old(self).constants,
            final(self).node_map@ == old(self).node_map@.insert(name@, id),
    {
        self.node_map.insert(name, id);
    }

    /// Lowers an evolution clause.
    pub fn lower_evolution<A: Arithmetic>(&self, ar: &A, evol: &EvolutionSpec) -> (r: Result<
        IrEvolution,
        EngineError,
    >)
        requires
            self.wf(),
        ensures
            match r {
                Ok(lowered) => evolution_fault(self.node_map@, *evol) is None
                    && is_evolution_lowered(ar, self.node_map@, *evol, lowered) && forall|j: int|
                    0 <= j < lowered.method.operands().len()
                        ==> #[trigger] lowered.method.operands()[j] < self.ir.nodes@.len(),
                Err(e) => evolution_fault(self.node_map@, *evol) == Some(e),
            },
    {
        let hamiltonian = match self.node_map.get(&evol.hamiltonian_name) {
            Some(id) => *id,
            None => {
                return Err(
                    EngineError::Internal(
                        InternalFault::HamiltonianNotFound(evol.hamiltonian_name.clone()),
                    ),
                );
            },
        };
        match &evol.timegrid {
            TimeGrid::Regular { n_steps, .. } => {
                if *n_steps == usize::MAX {
                    return Err(EngineError::Internal(InternalFault::CounterOverflow));
                }
            },
            TimeGrid::Explicit { times } => {
                let given: usize = times.len();
            },
        }
        let times = evol.timegrid.get_times(ar);
        if evol.lindblad_ops.len() == 0 {
            let method = EvolutionMethod::Schrodinger { hamiltonian };
            assert(method.operands() =~= seq![hamiltonian]);
            return Ok(IrEvolution { method, times });
        }
        let mut operators: Vec<LindbladOperator> = Vec::new();
        let mut k: usize = 0;
        while k < evol.lindblad_ops.len()
            invariant
                k <= evol.lindblad_ops@.len(),
                self.wf(),
                self.node_map@.contains_key(evol.hamiltonian_name@),
                hamiltonian == self.node_map@[evol.hamiltonian_name@],
                hamiltonian < self.ir.nodes@.len(),
                evol.timegrid.point_count() <= usize::MAX,
                is_grid_times(ar, evol.timegrid, times@),
                operators@.len() == k,
                terms_fault(self.node_map@, evol.lindblad_ops@, 0) == terms_fault(
                    self.node_map@,
                    evol.lindblad_ops@,
                    k as int,
                ),
                forall|p: int|
                    0 <= p < k ==> #[trigger] operators@[p] == lowered_term(
                        self.node_map@,
                        evol.lindblad_ops@[p],
                    ),
                forall|p: int| 0 <= p < k ==> (#[trigger] operators@[p]).operator < self.ir.nodes@.len(),
            decreases evol.lindblad_ops@.len() - k,
        {
            let term = &evol.lindblad_ops[k];
            let operator = match self.node_map.get(&term.operator_name) {
                Some(id) => *id,
                None => {
                    return Err(
                        EngineError::Internal(
                            InternalFault::OperatorNotFound(term.operator_name.clone()),
                        ),
                    );
                },
            };
            let rate = match &*term.rate {
                Expr::Number(r) => *r,
                _ => {
                    return Err(EngineError::Unsupported(UnsupportedFeature::NonConstantRate));
                },
            };
            operators.push(LindbladOperator { operator, rate });
            k += 1;
        }
        let method = EvolutionMethod::Lindblad { hamiltonian, operators };
        assert forall|j: int| 0 <= j < method.operands().len() implies #[trigger] method.operands()[j]
            < self.ir.nodes@.len() by {
            if j > 0 {
                assert(method.operands()[j] == operators@[j - 1].operator);
            }
        }
        Ok(IrEvolution { method, times })
    }

    /// Lowers an experiment: its initial state becomes a leaf, its evolution
    /// clause is resolved against the names declared so far.
    pub fn lower_experiment<A: Arithmetic>(
        &mut self,
        ar: &A,
        name: &String,
        body: &ExperimentBody,
    ) -> (r: Result<IrExperiment, EngineError>)
        requires
            old(self).wf(),
        ensures
            final(self).wf(),
            final(self).node_map == old(self).node_map,
            final(self).constants == old(self).constants,
            final(self).ir.experiments == old(self).ir.experiments,
            match r {
                Ok(lowered) => experiment_fault(old(self).node_map@, old(self).constants@, *body)
                    is None && final(self).ir.nodes@.len() == old(self).ir.nodes@.len() + 1
                    && final(self).ir.nodes@.subrange(0, old(self).ir.nodes@.len() as int) == old(self).ir.nodes@ && is_experiment_lowered(
                    ar,
                    old(self).node_map@,
                    old(self).constants@,
                    name@,
                    *body,
                    old(self).ir.nodes@.len() as usize,
                    final(self).ir.nodes@[old(self).ir.nodes@.len() as int],
                    lowered,
                ) && lowered.within(final(self).ir.nodes@.len()),
                Err(e) => experiment_fault(old(self).node_map@, old(self).constants@, *body)
                    == Some(e),
            },
    {
        let initial_state = match &body.init {
            Some(StateSpec::Ket(vec)) => match self.lower_vector_literal(ar, "init_ket", vec) {
                Ok(id) => id,
                Err(e) => {
                    return Err(e);
                },
            },
            Some(StateSpec::Rho(mat)) => match self.lower_matrix_literal(ar, "init_rho", mat) {
                Ok(id) => id,
                Err(e) => {
                    return Err(e);
                },
            },
            None => {
                return Err(EngineError::validation_error(ValidationFault::MissingInitialState));
            },
        };
        let evolution = match &body.evolution {
            Some(evol) => match self.lower_evolution(ar, evol) {
                Ok(lowered) => Some(lowered),
                Err(e) => {
                    return Err(e);
                },
            },
            None => None,
        };
        let measurements: Vec<IrMeasurement> = Vec::new();
        Ok(IrExperiment { name: name.clone(), initial_state, evolution, measurements })
    }

    /// Lowers one statement.
    pub fn lower_statement<A: Arithmetic>(&mut self, ar: &A, stmt: &Statement) -> (r: Result<
        (),
        EngineError,
    >)
        requires
            old(self).wf(),
        ensures
            final(self).wf(),
            match r {
                Ok(()) => statement_fault(old(self).node_map@, old(self).constants@, *stmt)
                    is None && is_statement_lowered(
                    ar,
                    old(self).progress(),
                    *stmt,
                    final(self).progress(),
                ),
                Err(e) => statement_fault(old(self).node_map@, old(self).constants@, *stmt)
                    == Some(e),
            },
    {
        let ghost before = self.progress();
        match stmt {
            Statement::ConstDecl { name, value } => {
                let id = self.next_id;
                self.emit(IrNode::Scalar { id, value: Complex::from_real(*value) });
                self.bind(name.clone(), id);
                self.constants.insert(name.clone(), *value);
                Ok(())
            },
            Statement::MatrixDecl { name, value } => {
                let id = match self.lower_matrix_literal(ar, name.as_str(), value) {
                    Ok(id) => id,
                    Err(e) => {
                        return Err(e);
                    },
                };
                self.bind(name.clone(), id);
                Ok(())
            },
            Statement::HamiltonianDef { name, expr, .. } => {
                let id = match self.lower_expr(ar, expr) {
                    Ok(id) => id,
                    Err(e) => {
                        return Err(e);
                    },
                };
                self.bind(name.clone(), id);
                let ghost after = self.progress();
                assert(is_lowered(
                    ar,
                    before.names,
                    before.constants,
                    before.nodes.len(),
                    **expr,
                    after.nodes.subrange(before.nodes.len() as int, after.nodes.len() as int),
                    id,
                ) && before.nodes.len() <= after.nodes.len() && after.nodes.subrange(
                    0,
                    before.nodes.len() as int,
                ) == before.nodes && after.experiments == before.experiments && is_bound(
                    before.names,
                    name@,
                    id,
                    after.names,
                ) && after.constants == before.constants);
                Ok(())
            },
            Statement::Experiment { name, body } => {
                let experiment = match self.lower_experiment(ar, name, body) {
                    Ok(x) => x,
                    Err(e) => {
                        return Err(e);
                    },
                };
                let ghost held = self.ir.experiments@;
                self.ir.experiments.push(experiment);
                assert(self.ir.experiments@.subrange(0, held.len() as int) =~= held);
                assert forall|e: int| 0 <= e < self.ir.experiments@.len() implies (
                #[trigger] self.ir.experiments@[e]).within(self.ir.nodes@.len()) by {
                    if e < held.len() {
                        assert(self.ir.experiments@[e] == held[e]);
                        assert(old(self).ir.experiments@[e].within(old(self).ir.nodes@.len()));
                    }
                }
                Ok(())
            },
            _ => Ok(()),
        }
    }

    /// Lowers a validated program statement by statement. The result is a
    /// graph without forward references; the first statement that cannot be
    /// lowered ends the pass and gives the error.
    pub fn lower<A: Arithmetic>(self, ar: &A, validated: &ValidatedAst) -> (r: Result<
        IrProgram,
        EngineError,
    >)
        requires
            self.wf(),
        ensures
            match r {
                Ok(program) => program.well_formed() && exists|state: Progress| #[trigger]
                    is_lowered_upto(
                        ar,
                        self.progress(),
                        validated.typed_ast.ast.statements@,
                        validated.typed_ast.ast.statements@.len(),
                        state,
                    ) && program.nodes@ == state.nodes && program.experiments@
                        == state.experiments,
                Err(e) => exists|k: int| #[trigger]
                    lowering_fails_at(
                        ar,
                        self.progress(),
                        validated.typed_ast.ast.statements@,
                        k,
                        e,
                    ),
            },
    {
        let mut pass = self;
        let ghost init = pass.progress();
        let ghost stmts = validated.typed_ast.ast.statements@;
        let mut i: usize = 0;
        while i < validated.typed_ast.ast.statements.len()
            invariant
                i <= stmts.len(),
                stmts == validated.typed_ast.ast.statements@,
                init == self.progress(),
                pass.wf(),
                is_lowered_upto(ar, init, stmts, i as nat, pass.progress()),
            decreases stmts.len() - i,
        {
            let ghost mid = pass.progress();
            match pass.lower_statement(ar, &validated.typed_ast.ast.statements[i]) {
                Ok(()) => {
                    proof {
                        let c: nat = (i + 1) as nat;
                        assert(stmts[c - 1] == stmts[i as int]);
                        assert(is_lowered_upto(ar, init, stmts, (c - 1) as nat, mid)
                            && is_statement_lowered(ar, mid, stmts[c - 1], pass.progress()));
                        assert(is_lowered_upto(ar, init, stmts, c, pass.progress()));
                    }
                },
                Err(e) => {
                    assert(is_lowered_upto(ar, init, stmts, i as nat, mid) && stops_with(
                        mid,
                        stmts[i as int],
                        e,
                    ));
                    assert(lowering_fails_at(ar, init, stmts, i as int, e));
                    return Err(e);
                },
            }
            i += 1;
        }
        Ok(pass.ir)
    }
}

} // verus!
