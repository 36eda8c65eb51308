//! The shape checker: assigns a shape to every named quantity and rejects
//! sums, products and declarations whose shapes do not fit.

use crate::ast::{Ast, Expr, ExperimentBody, MatrixLiteral, MeasurementSpec, Statement, StateSpec};
use crate::error::{EngineError, TypeFault, ValidationFault};
use crate::symbols::SymbolTable;
use vstd::prelude::*;

verus! {

/// The shape of a quantity.
#[derive(Clone, Copy, Debug, PartialEq, Eq, Structural)]
pub enum Shape {
    Scalar,
    Vector(usize),
    Matrix(usize, usize),
}

/// A program together with the shape of each of its names.
pub struct TypedAst {
    pub ast: Ast,
    pub shapes: SymbolTable<Shape>,
}

/// The shape checker; holds the shapes of the names declared so far.
pub struct TypeChecker {
    pub shapes: SymbolTable<Shape>,
}

/// The names that every program starts with: the Pauli matrices and the
/// identity, all 2 by 2.
pub open spec fn builtin_shapes() -> Map<Seq<char>, Shape> {
    Map::<Seq<char>, Shape>::empty().insert("sigma_x"@, Shape::Matrix(2, 2)).insert(
        "sigma_y"@,
        Shape::Matrix(2, 2),
    ).insert("sigma_z"@, Shape::Matrix(2, 2)).insert("identity"@, Shape::Matrix(2, 2))
}

/// The first row at or after `from` whose length is not `width`.
pub open spec fn ragged_row(rows: Seq<Vec<Expr>>, width: nat, from: int) -> Option<int>
    decreases rows.len() - from,
{
    if from < 0 || from >= rows.len() {
        None
    } else if rows[from]@.len() != width {
        Some(from)
    } else {
        ragged_row(rows, width, from + 1)
    }
}

/// The shape of a matrix literal: its row count by the length of its rows,
/// unless it has no rows or rows of different lengths.
pub open spec fn matrix_shape(mat: MatrixLiteral) -> Result<Shape, EngineError> {
    let rows = mat.rows@;
    if rows.len() == 0 {
        Err(EngineError::TypeError(TypeFault::EmptyMatrix))
    } else {
        let width = rows[0]@.len();
        match ragged_row(rows, width, 0) {
            Some(i) => Err(
                EngineError::TypeError(
                    TypeFault::RaggedMatrix {
                        row: i as usize,
                        expected: width as usize,
                        found: rows[i]@.len() as usize,
                    },
                ),
            ),
            None => Ok(Shape::Matrix(rows.len() as usize, width as usize)),
        }
    }
}

/// Shape of a sum or difference: both operands must have one shape.
pub open spec fn sum_shape(left: Shape, right: Shape) -> Result<Shape, EngineError> {
    if left != right {
        Err(EngineError::DimensionMismatch { expected: left, actual: right })
    } else {
        Ok(left)
    }
}

/// Shape of a product: a scalar scales anything; matrix by matrix and matrix
/// by vector need the inner dimensions to agree.
pub open spec fn product_shape(left: Shape, right: Shape) -> Result<Shape, EngineError> {
    match (left, right) {
        (Shape::Scalar, s) => Ok(s),
        (s, Shape::Scalar) => Ok(s),
        (Shape::Matrix(n1, m1), Shape::Matrix(n2, m2)) => {
            if m1 != n2 {
                Err(EngineError::DimensionMismatch { expected: left, actual: right })
            } else {
                Ok(Shape::Matrix(n1, m2))
            }
        },
        (Shape::Matrix(n, m), Shape::Vector(v)) => {
            if m != v {
                Err(EngineError::DimensionMismatch { expected: left, actual: right })
            } else {
                Ok(Shape::Vector(n))
            }
        },
        _ => Err(EngineError::TypeError(TypeFault::InvalidMultiplication)),
    }
}

/// Shape of a quotient: the divisor must be a scalar.
pub open spec fn quotient_shape(left: Shape, right: Shape) -> Result<Shape, EngineError> {
    match right {
        Shape::Scalar => Ok(left),
        _ => Err(EngineError::TypeError(TypeFault::NonScalarDivisor)),
    }
}

/// Shape of a conjugate transpose: rows and columns change places.
pub open spec fn dagger_shape(inner: Shape) -> Shape {
    match inner {
        Shape::Matrix(n, m) => Shape::Matrix(m, n),
        Shape::Vector(n) => Shape::Vector(n),
        Shape::Scalar => Shape::Scalar,
    }
}

/// Shape of a trace: a scalar, of a square matrix only.
pub open spec fn trace_shape(inner: Shape) -> Result<Shape, EngineError> {
    match inner {
        Shape::Matrix(n, m) => if n == m {
            Ok(Shape::Scalar)
        } else {
            Err(EngineError::TypeError(TypeFault::TraceOperand))
        },
        _ => Err(EngineError::TypeError(TypeFault::TraceOperand)),
    }
}

/// Shape of a tensor product: both dimensions multiply.
pub open spec fn tensor_shape(left: Shape, right: Shape) -> Result<Shape, EngineError> {
    match (left, right) {
        (Shape::Matrix(n1, m1), Shape::Matrix(n2, m2)) => {
            if n1 * n2 > usize::MAX || m1 * m2 > usize::MAX {
                Err(EngineError::TypeError(TypeFault::DimensionOverflow))
            } else {
                Ok(Shape::Matrix((n1 * n2) as usize, (m1 * m2) as usize))
            }
        },
        (Shape::Vector(n1), Shape::Vector(n2)) => {
            if n1 * n2 > usize::MAX {
                Err(EngineError::TypeError(TypeFault::DimensionOverflow))
            } else {
                Ok(Shape::Vector((n1 * n2) as usize))
            }
        },
        _ => Err(EngineError::TypeError(TypeFault::TensorOperands)),
    }
}

/// Shape of a commutator or anticommutator: square matrices of one size.
pub open spec fn commutator_shape(left: Shape, right: Shape) -> Result<Shape, EngineError> {
    match (left, right) {
        (Shape::Matrix(n1, m1), Shape::Matrix(n2, m2)) => {
            if n1 == m1 && n2 == m2 && n1 == n2 {
                Ok(Shape::Matrix(n1, m1))
            } else {
                Err(EngineError::TypeError(TypeFault::CommutatorOperands))
            }
        },
        _ => Err(EngineError::TypeError(TypeFault::CommutatorOperands)),
    }
}

/// Shape of a matrix exponential or square root: that of its operand, which
/// is a scalar or a square matrix.
pub open spec fn matrix_function_shape(inner: Shape) -> Result<Shape, EngineError> {
    match inner {
        Shape::Matrix(n, m) => if n == m {
            Ok(inner)
        } else {
            Err(EngineError::TypeError(TypeFault::MatrixFunctionOperand))
        },
        Shape::Scalar => Ok(Shape::Scalar),
        _ => Err(EngineError::TypeError(TypeFault::MatrixFunctionOperand)),
    }
}

/// Applies `combine` to the shapes of two operands; the left operand's error
/// comes first.
pub open spec fn both(
    left: Result<Shape, EngineError>,
    right: Result<Shape, EngineError>,
    combine: spec_fn(Shape, Shape) -> Result<Shape, EngineError>,
) -> Result<Shape, EngineError> {
    match left {
        Err(e) => Err(e),
        Ok(l) => match right {
            Err(e) => Err(e),
            Ok(r) => combine(l, r),
        },
    }
}

/// The shape of an expression where the names have the shapes `env`.
pub open spec fn expr_shape(env: Map<Seq<char>, Shape>, expr: Expr) -> Result<Shape, EngineError>
    decreases expr,
{
    match expr {
        Expr::Number(_) => Ok(Shape::Scalar),
        Expr::ComplexNumber(_) => Ok(Shape::Scalar),
        Expr::Identifier(name) => {
            if env.contains_key(name@) {
                Ok(env[name@])
            } else {
                Err(EngineError::TypeError(TypeFault::UnknownIdentifier(name)))
            }
        },
        Expr::Matrix(mat) => matrix_shape(mat),
        Expr::Vector(vec) => Ok(Shape::Vector(vec.elements@.len() as usize)),
        Expr::Add(left, right) => both(
            expr_shape(env, *left),
            expr_shape(env, *right),
            |l: Shape, r: Shape| sum_shape(l, r),
        ),
        Expr::Sub(left, right) => both(
            expr_shape(env, *left),
            expr_shape(env, *right),
            |l: Shape, r: Shape| sum_shape(l, r),
        ),
        Expr::Mul(left, right) => both(
            expr_shape(env, *left),
            expr_shape(env, *right),
            |l: Shape, r: Shape| product_shape(l, r),
        ),
        Expr::Div(left, right) => both(
            expr_shape(env, *left),
            expr_shape(env, *right),
            |l: Shape, r: Shape| quotient_shape(l, r),
        ),
        Expr::Pow(base, _) => expr_shape(env, *base),
        Expr::Dagger(inner) => match expr_shape(env, *inner) {
            Ok(s) => Ok(dagger_shape(s)),
            Err(e) => Err(e),
        },
        Expr::Trace(inner) => match expr_shape(env, *inner) {
            Ok(s) => trace_shape(s),
            Err(e) => Err(e),
        },
        Expr::Tensor(left, right) => both(
            expr_shape(env, *left),
            expr_shape(env, *right),
            |l: Shape, r: Shape| tensor_shape(l, r),
        ),
        Expr::Commutator(left, right) => both(
            expr_shape(env, *left),
            expr_shape(env, *right),
            |l: Shape, r: Shape| commutator_shape(l, r),
        ),
        Expr::AntiCommutator(left, right) => both(
            expr_shape(env, *left),
            expr_shape(env, *right),
            |l: Shape, r: Shape| commutator_shape(l, r),
        ),
        Expr::Expm(inner) => match expr_shape(env, *inner) {
            Ok(s) => matrix_function_shape(s),
            Err(e) => Err(e),
        },
        Expr::Sqrt(inner) => match expr_shape(env, *inner) {
            Ok(s) => matrix_function_shape(s),
            Err(e) => Err(e),
        },
        Expr::Sin(inner) => match expr_shape(env, *inner) {
            Ok(_) => Ok(Shape::Scalar),
            Err(e) => Err(e),
        },
        Expr::Cos(inner) => match expr_shape(env, *inner) {
            Ok(_) => Ok(Shape::Scalar),
            Err(e) => Err(e),
        },
        Expr::Exp(inner) => match expr_shape(env, *inner) {
            Ok(_) => Ok(Shape::Scalar),
            Err(e) => Err(e),
        },
        Expr::FuncCall { .. } => Ok(Shape::Scalar),
    }
}

/// The first literal at or after `from` whose shape is an error or differs
/// from `first`, with the error it gives.
pub open spec fn set_fault(mats: Seq<MatrixLiteral>, first: Shape, from: int) -> Option<EngineError>
    decreases mats.len() - from,
{
    if from < 0 || from >= mats.len() {
        None
    } else {
        match matrix_shape(mats[from]) {
            Err(e) => Some(e),
            Ok(s) => if s != first {
                Some(EngineError::DimensionMismatch { expected: first, actual: s })
            } else {
                set_fault(mats, first, from + 1)
            },
        }
    }
}

/// A set of projectors or effects is accepted when it is not empty and all
/// its members are well-formed matrices of the first one's shape.
pub open spec fn operator_set_check(mats: Seq<MatrixLiteral>, empty: ValidationFault) -> Result<
    (),
    EngineError,
> {
    if mats.len() == 0 {
        Err(EngineError::ValidationError(empty))
    } else {
        match matrix_shape(mats[0]) {
            Err(e) => Err(e),
            Ok(first) => match set_fault(mats, first, 1) {
                Some(e) => Err(e),
                None => Ok(()),
            },
        }
    }
}

/// What the checker says of a measurement declaration.
pub open spec fn measurement_check(spec: MeasurementSpec) -> Result<(), EngineError> {
    match spec {
        MeasurementSpec::Projective { projectors } => operator_set_check(
            projectors@,
            ValidationFault::EmptyProjectorSet,
        ),
        MeasurementSpec::POVM { effects } => operator_set_check(
            effects@,
            ValidationFault::EmptyEffectSet,
        ),
    }
}

/// What the checker says of an experiment: an initial density matrix must be
/// a well-formed square matrix; a ket is always accepted.
pub open spec fn experiment_check(body: ExperimentBody) -> Result<(), EngineError> {
    match body.init {
        Some(StateSpec::Rho(mat)) => match matrix_shape(mat) {
            Err(e) => Err(e),
            Ok(Shape::Matrix(n, m)) => if n == m {
                Ok(())
            } else {
                Err(EngineError::TypeError(TypeFault::DensityMatrixNotSquare))
            },
            Ok(_) => Err(EngineError::TypeError(TypeFault::DensityMatrixNotSquare)),
        },
        _ => Ok(()),
    }
}

/// The shapes after one statement, or the error that the statement gives.
pub open spec fn statement_check(env: Map<Seq<char>, Shape>, stmt: Statement) -> Result<
    Map<Seq<char>, Shape>,
    EngineError,
> {
    match stmt {
        Statement::ConstDecl { name, .. } => Ok(env.insert(name@, Shape::Scalar)),
        Statement::SymbolDecl { name } => Ok(env.insert(name@, Shape::Scalar)),
        Statement::MatrixDecl { name, value } => match matrix_shape(value) {
            Ok(s) => Ok(env.insert(name@, s)),
            Err(e) => Err(e),
        },
        Statement::FunctionDef { name, body, .. } => {
            let inner = env.insert(name@, Shape::Scalar);
            match expr_shape(inner, *body) {
                Ok(_) => Ok(inner),
                Err(e) => Err(e),
            }
        },
        Statement::HamiltonianDef { name, expr, .. } => match expr_shape(env, *expr) {
            Err(e) => Err(e),
            Ok(Shape::Matrix(n, m)) => if n == m {
                Ok(env.insert(name@, Shape::Matrix(n, m)))
            } else {
                Err(
                    EngineError::TypeError(
                        TypeFault::HamiltonianNotSquare { name, shape: Shape::Matrix(n, m) },
                    ),
                )
            },
            Ok(s) => Err(
                EngineError::TypeError(TypeFault::HamiltonianNotSquare { name, shape: s }),
            ),
        },
        Statement::MeasurementDef { spec, .. } => match measurement_check(spec) {
            Ok(()) => Ok(env),
            Err(e) => Err(e),
        },
        Statement::Experiment { body, .. } => match experiment_check(body) {
            Ok(()) => Ok(env),
            Err(e) => Err(e),
        },
    }
}

/// The shapes after the statements from `from` on, taken in order, or the
/// error of the first statement that gives one.
pub open spec fn program_check(
    env: Map<Seq<char>, Shape>,
    stmts: Seq<Statement>,
    from: int,
) -> Result<Map<Seq<char>, Shape>, EngineError>
    decreases stmts.len() - from,
{
    if from < 0 || from >= stmts.len() {
        Ok(env)
    } else {
        match statement_check(env, stmts[from]) {
            Err(e) => Err(e),
            Ok(next) => program_check(next, stmts, from + 1),
        }
    }
}

fn same_shape(a: Shape, b: Shape) -> (r: bool)
    ensures
        r == (a == b),
{
    match (a, b) {
        (Shape::Scalar, Shape::Scalar) => true,
        (Shape::Vector(n), Shape::Vector(m)) => n == m,
        (Shape::Matrix(n1, m1), Shape::Matrix(n2, m2)) => n1 == n2 && m1 == m2,
        _ => false,
    }
}

impl TypeChecker {
    /// A checker that knows the built-in names.
    pub fn new() -> (c: TypeChecker)
        ensures
            c.shapes@ == builtin_shapes(),
    {
        let mut shapes: SymbolTable<Shape> = SymbolTable::new();
        shapes.insert("sigma_x".to_string(), Shape::Matrix(2, 2));
        shapes.insert("sigma_y".to_string(), Shape::Matrix(2, 2));
        shapes.insert("sigma_z".to_string(), Shape::Matrix(2, 2));
        shapes.insert("identity".to_string(), Shape::Matrix(2, 2));
        TypeChecker { shapes }
    }

    /// Checks the statements in order and returns the program with the shapes
    /// of its names; the first error ends the check.
    pub fn check(&mut self, ast: Ast) -> (r: Result<TypedAst, EngineError>)
        ensures
            match program_check(old(self).shapes@, ast.statements@, 0) {
                Ok(env) => r is Ok && r->Ok_0.ast == ast && r->Ok_0.shapes@ == env && final(self).shapes@ == env,
                Err(e) => r == Err::<TypedAst, EngineError>(e),
            },
    {
        let mut i: usize = 0;
        while i < ast.statements.len()
            invariant
                i <= ast.statements@.len(),
                program_check(old(self).shapes@, ast.statements@, 0) == program_check(
                    self.shapes@,
                    ast.statements@,
                    i as int,
                ),
            decreases ast.statements@.len() - i,
        {
            match self.check_statement(&ast.statements[i]) {
                Ok(()) => {},
                Err(e) => {
                    return Err(e);
                },
            }
            i += 1;
        }
        let shapes = self.shapes.duplicate();
        Ok(TypedAst { ast, shapes })
    }

    /// Checks one statement and records the shape of the name it declares.
    pub fn check_statement(&mut self, stmt: &Statement) -> (r: Result<(), EngineError>)
        ensures
            match statement_check(old(self).shapes@, *stmt) {
                Ok(env) => r is Ok && final(self).shapes@ == env,
                Err(e) => r == Err::<(), EngineError>(e) && final(self).shapes@ == old(self).shapes@,
            },
    {
        match stmt {
            Statement::ConstDecl { name, .. } => {
                self.shapes.insert(name.clone(), Shape::Scalar);
                Ok(())
            },
            Statement::SymbolDecl { name } => {
                self.shapes.insert(name.clone(), Shape::Scalar);
                Ok(())
            },
            Statement::MatrixDecl { name, value } => {
                match self.infer_matrix_shape(value) {
                    Ok(shape) => {
                        self.shapes.insert(name.clone(), shape);
                        Ok(())
                    },
                    Err(e) => Err(e),
                }
            },
            Statement::FunctionDef { name, body, .. } => {
                let mut inner = TypeChecker { shapes: self.shapes.duplicate() };
                inner.shapes.insert(name.clone(), Shape::Scalar);
                match inner.infer_expr_shape(body) {
                    Ok(_) => {
                        self.shapes.insert(name.clone(), Shape::Scalar);
                        Ok(())
                    },
                    Err(e) => Err(e),
                }
            },
            Statement::HamiltonianDef { name, expr, .. } => {
                match self.infer_expr_shape(expr) {
                    Err(e) => Err(e),
                    Ok(shape) => {
                        let square = match shape {
                            Shape::Matrix(n, m) => n == m,
                            _ => false,
                        };
                        if square {
                            self.shapes.insert(name.clone(), shape);
                            Ok(())
                        } else {
                            Err(
                                EngineError::type_error(
                                    TypeFault::HamiltonianNotSquare { name: name.clone(), shape },
                                ),
                            )
                        }
                    },
                }
            },
            Statement::MeasurementDef { spec, .. } => self.check_measurement_spec(spec),
            Statement::Experiment { body, .. } => self.check_experiment_body(body),
        }
    }

    /// The shape of a matrix literal.
    pub fn infer_matrix_shape(&self, mat: &MatrixLiteral) -> (r: Result<Shape, EngineError>)
        ensures
            r == matrix_shape(*mat),
    {
        if mat.rows.len() == 0 {
            return Err(EngineError::type_error(TypeFault::EmptyMatrix));
        }
        let n_rows: usize = mat.rows.len();
        let n_cols: usize = mat.rows[0].len();
        let mut i: usize = 0;
        while i < n_rows
            invariant
                i <= n_rows,
                n_rows == mat.rows@.len(),
                n_cols == mat.rows@[0]@.len(),
                ragged_row(mat.rows@, n_cols as nat, 0) == ragged_row(
                    mat.rows@,
                    n_cols as nat,
                    i as int,
                ),
            decreases n_rows - i,
        {
            let found: usize = mat.rows[i].len();
            if found != n_cols {
                return Err(
                    EngineError::type_error(
                        TypeFault::RaggedMatrix { row: i, expected: n_cols, found },
                    ),
                );
            }
            i += 1;
        }
        Ok(Shape::Matrix(n_rows, n_cols))
    }

    /// The shape of an expression under the shapes recorded so far.
    pub fn infer_expr_shape(&self, expr: &Expr) -> (r: Result<Shape, EngineError>)
        ensures
            r == expr_shape(self.shapes@, *expr),
        decreases expr,
    {
        match expr {
            Expr::Number(_) => Ok(Shape::Scalar),
            Expr::ComplexNumber(_) => Ok(Shape::Scalar),
            Expr::Identifier(name) => match self.shapes.get(name) {
                Some(shape) => Ok(*shape),
                None => Err(EngineError::type_error(TypeFault::UnknownIdentifier(name.clone()))),
            },
            Expr::Matrix(mat) => self.infer_matrix_shape(mat),
            Expr::Vector(vec) => Ok(Shape::Vector(vec.elements.len())),
            Expr::Add(left, right) | Expr::Sub(left, right) => {
                let left_shape = match self.infer_expr_shape(left) {
                    Ok(s) => s,
                    Err(e) => {
                        return Err(e);
                    },
                };
                let right_shape = match self.infer_expr_shape(right) {
                    Ok(s) => s,
                    Err(e) => {
                        return Err(e);
                    },
                };
                if !same_shape(left_shape, right_shape) {
                    return Err(EngineError::dimension_mismatch(left_shape, right_shape));
                }
                Ok(left_shape)
            },
            Expr::Mul(left, right) => {
                let left_shape = match self.infer_expr_shape(left) {
                    Ok(s) => s,
                    Err(e) => {
                        return Err(e);
                    },
                };
                let right_shape = match self.infer_expr_shape(right) {
                    Ok(s) => s,
                    Err(e) => {
                        return Err(e);
                    },
                };
                match (left_shape, right_shape) {
                    (Shape::Scalar, s) => Ok(s),
                    (s, Shape::Scalar) => Ok(s),
                    (Shape::Matrix(n1, m1), Shape::Matrix(n2, m2)) => {
                        if m1 != n2 {
                            return Err(EngineError::dimension_mismatch(left_shape, right_shape));
                        }
                        Ok(Shape::Matrix(n1, m2))
                    },
                    (Shape::Matrix(n, m), Shape::Vector(v)) => {
                        if m != v {
                            return Err(EngineError::dimension_mismatch(left_shape, right_shape));
                        }
                        Ok(Shape::Vector(n))
                    },
                    _ => Err(EngineError::type_error(TypeFault::InvalidMultiplication)),
                }
            },
            Expr::Div(left, right) => {
                let left_shape = match self.infer_expr_shape(left) {
                    Ok(s) => s,
                    Err(e) => {
                        return Err(e);
                    },
                };
                let right_shape = match self.infer_expr_shape(right) {
                    Ok(s) => s,
                    Err(e) => {
                        return Err(e);
                    },
                };
                match right_shape {
                    Shape::Scalar => Ok(left_shape),
                    _ => Err(EngineError::type_error(TypeFault::NonScalarDivisor)),
                }
            },
            Expr::Pow(base, _exp) => self.infer_expr_shape(base),
            Expr::Dagger(inner) => {
                match self.infer_expr_shape(inner) {
                    Err(e) => Err(e),
                    Ok(Shape::Matrix(n, m)) => Ok(Shape::Matrix(m, n)),
                    Ok(Shape::Vector(n)) => Ok(Shape::Vector(n)),
                    Ok(Shape::Scalar) => Ok(Shape::Scalar),
                }
            },
            Expr::Trace(inner) => {
                match self.infer_expr_shape(inner) {
                    Err(e) => Err(e),
                    Ok(Shape::Matrix(n, m)) => {
                        if n == m {
                            Ok(Shape::Scalar)
                        } else {
                            Err(EngineError::type_error(TypeFault::TraceOperand))
                        }
                    },
                    Ok(_) => Err(EngineError::type_error(TypeFault::TraceOperand)),
                }
            },
            Expr::Tensor(left, right) => {
                let left_shape = match self.infer_expr_shape(left) {
                    Ok(s) => s,
                    Err(e) => {
                        return Err(e);
                    },
                };
                let right_shape = match self.infer_expr_shape(right) {
                    Ok(s) => s,
                    Err(e) => {
                        return Err(e);
                    },
                };
                match (left_shape, right_shape) {
                    (Shape::Matrix(n1, m1), Shape::Matrix(n2, m2)) => {
                        match (n1.checked_mul(n2), m1.checked_mul(m2)) {
                            (Some(n), Some(m)) => Ok(Shape::Matrix(n, m)),
                            _ => Err(EngineError::type_error(TypeFault::DimensionOverflow)),
                        }
                    },
                    (Shape::Vector(n1), Shape::Vector(n2)) => {
                        match n1.checked_mul(n2) {
                            Some(n) => Ok(Shape::Vector(n)),
                            None => Err(EngineError::type_error(TypeFault::DimensionOverflow)),
                        }
                    },
                    _ => Err(EngineError::type_error(TypeFault::TensorOperands)),
                }
            },
            Expr::Commutator(left, right) | Expr::AntiCommutator(left, right) => {
                let left_shape = match self.infer_expr_shape(left) {
                    Ok(s) => s,
                    Err(e) => {
                        return Err(e);
                    },
                };
                let right_shape = match self.infer_expr_shape(right) {
                    Ok(s) => s,
                    Err(e) => {
                        return Err(e);
                    },
                };
                match (left_shape, right_shape) {
                    (Shape::Matrix(n1, m1), Shape::Matrix(n2, m2)) => {
                        if n1 == m1 && n2 == m2 && n1 == n2 {
                            Ok(Shape::Matrix(n1, m1))
                        } else {
                            Err(EngineError::type_error(TypeFault::CommutatorOperands))
                        }
                    },
                    _ => Err(EngineError::type_error(TypeFault::CommutatorOperands)),
                }
            },
            Expr::Expm(inner) | Expr::Sqrt(inner) => {
                match self.infer_expr_shape(inner) {
                    Err(e) => Err(e),
                    Ok(Shape::Matrix(n, m)) => {
                        if n == m {
                            Ok(Shape::Matrix(n, m))
                        } else {
                            Err(EngineError::type_error(TypeFault::MatrixFunctionOperand))
                        }
                    },
                    Ok(Shape::Scalar) => Ok(Shape::Scalar),
                    Ok(_) => Err(EngineError::type_error(TypeFault::MatrixFunctionOperand)),
                }
            },
            Expr::Sin(inner) | Expr::Cos(inner) | Expr::Exp(inner) => {
                match self.infer_expr_shape(inner) {
                    Err(e) => Err(e),
                    Ok(_) => Ok(Shape::Scalar),
                }
            },
            Expr::FuncCall { .. } => Ok(Shape::Scalar),
        }
    }

    fn check_operator_set(&self, mats: &Vec<MatrixLiteral>, empty: ValidationFault) -> (r: Result<
        (),
        EngineError,
    >)
        ensures
            r == operator_set_check(mats@, empty),
    {
        if mats.len() == 0 {
            return Err(EngineError::validation_error(empty));
        }
        let first_shape = match self.infer_matrix_shape(&mats[0]) {
            Ok(s) => s,
            Err(e) => {
                return Err(e);
            },
        };
        let mut i: usize = 1;
        while i < mats.len()
            invariant
                1 <= i <= mats@.len(),
                matrix_shape(mats@[0]) == Ok::<Shape, EngineError>(first_shape),
                set_fault(mats@, first_shape, 1) == set_fault(mats@, first_shape, i as int),
            decreases mats@.len() - i,
        {
            let shape = match self.infer_matrix_shape(&mats[i]) {
                Ok(s) => s,
                Err(e) => {
                    return Err(e);
                },
            };
            if !same_shape(shape, first_shape) {
                return Err(EngineError::dimension_mismatch(first_shape, shape));
            }
            i += 1;
        }
        Ok(())
    }

    /// Checks that a measurement's operators are matrices of one shape.
    pub fn check_measurement_spec(&self, spec: &MeasurementSpec) -> (r: Result<(), EngineError>)
        ensures
            r == measurement_check(*spec),
    {
        match spec {
            MeasurementSpec::Projective { projectors } => self.check_operator_set(
                projectors,
                ValidationFault::EmptyProjectorSet,
            ),
            MeasurementSpec::POVM { effects } => self.check_operator_set(
                effects,
                ValidationFault::EmptyEffectSet,
            ),
        }
    }

    /// Checks that an initial density matrix is square.
    pub fn check_experiment_body(&self, body: &ExperimentBody) -> (r: Result<(), EngineError>)
        ensures
            r == experiment_check(*body),
    {
        match &body.init {
            Some(StateSpec::Rho(mat)) => {
                match self.infer_matrix_shape(mat) {
                    Err(e) => Err(e),
                    Ok(Shape::Matrix(n, m)) => {
                        if n == m {
                            Ok(())
                        } else {
                            Err(EngineError::type_error(TypeFault::DensityMatrixNotSquare))
                        }
                    },
                    Ok(_) => Err(EngineError::type_error(TypeFault::DensityMatrixNotSquare)),
                }
            },
            _ => Ok(()),
        }
    }
}

} // verus!
