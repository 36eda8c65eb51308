use quantum_theory_engine::ast::{
    Ast, Expr, ExperimentBody, MatrixLiteral, MeasurementSpec, Statement, StateSpec, VectorLiteral,
};
use quantum_theory_engine::error::{EngineError, TypeFault, ValidationFault};
use quantum_theory_engine::scalar::Real;
use quantum_theory_engine::typechecker::{Shape, TypeChecker};

fn n(x: f64) -> Expr {
    Expr::Number(Real { bits: x.to_bits() })
}

fn id(s: &str) -> Expr {
    Expr::Identifier(s.to_string())
}

fn b(e: Expr) -> Box<Expr> {
    Box::new(e)
}

fn lit(rows: usize, cols: usize) -> MatrixLiteral {
    MatrixLiteral { rows: (0..rows).map(|_| (0..cols).map(|_| n(0.0)).collect()).collect() }
}

fn mat(rows: usize, cols: usize) -> Expr {
    Expr::Matrix(lit(rows, cols))
}

fn vector(len: usize) -> Expr {
    Expr::Vector(VectorLiteral { elements: (0..len).map(|_| n(0.0)).collect() })
}

fn shape(e: &Expr) -> Result<Shape, EngineError> {
    TypeChecker::new().infer_expr_shape(e)
}

#[test]
fn test_matrix_shape_inference() {
    let checker = TypeChecker::new();
    let mat = MatrixLiteral { rows: vec![vec![n(1.0), n(0.0)], vec![n(0.0), n(1.0)]] };
    let shape = checker.infer_matrix_shape(&mat).unwrap();
    assert_eq!(shape, Shape::Matrix(2, 2));
}

#[test]
fn test_inconsistent_matrix_error() {
    let checker = TypeChecker::new();
    let mat = MatrixLiteral { rows: vec![vec![n(1.0), n(0.0)], vec![n(0.0)]] };
    assert!(checker.infer_matrix_shape(&mat).is_err());
    assert_eq!(
        checker.infer_matrix_shape(&mat),
        Err(EngineError::TypeError(TypeFault::RaggedMatrix { row: 1, expected: 2, found: 1 }))
    );
}

#[test]
fn test_matrix_multiply() {
    let checker = TypeChecker::new();
    let left = Expr::Matrix(MatrixLiteral { rows: vec![vec![n(1.0), n(2.0)]] });
    let right = Expr::Matrix(MatrixLiteral { rows: vec![vec![n(1.0)], vec![n(2.0)]] });
    let expr = Expr::Mul(Box::new(left), Box::new(right));
    let shape = checker.infer_expr_shape(&expr).unwrap();
    assert_eq!(shape, Shape::Matrix(1, 1));
}

#[test]
fn builtin_names_are_two_by_two() {
    for name in ["sigma_x", "sigma_y", "sigma_z", "identity"] {
        assert_eq!(shape(&id(name)), Ok(Shape::Matrix(2, 2)));
    }
    assert_eq!(
        shape(&id("sigma_w")),
        Err(EngineError::TypeError(TypeFault::UnknownIdentifier("sigma_w".to_string())))
    );
}

#[test]
fn empty_matrix_is_rejected() {
    assert_eq!(shape(&mat(0, 0)), Err(EngineError::TypeError(TypeFault::EmptyMatrix)));
}

#[test]
fn sums_need_one_shape() {
    assert_eq!(shape(&Expr::Add(b(mat(2, 3)), b(mat(2, 3)))), Ok(Shape::Matrix(2, 3)));
    assert_eq!(
        shape(&Expr::Sub(b(mat(2, 3)), b(mat(3, 2)))),
        Err(EngineError::DimensionMismatch { expected: Shape::Matrix(2, 3), actual: Shape::Matrix(3, 2) })
    );
    assert_eq!(
        shape(&Expr::Add(b(n(1.0)), b(vector(2)))),
        Err(EngineError::DimensionMismatch { expected: Shape::Scalar, actual: Shape::Vector(2) })
    );
    // the left operand's error comes first
    assert_eq!(
        shape(&Expr::Add(b(id("p")), b(id("q")))),
        Err(EngineError::TypeError(TypeFault::UnknownIdentifier("p".to_string())))
    );
}

#[test]
fn products_need_matching_inner_dimensions() {
    assert_eq!(shape(&Expr::Mul(b(n(2.0)), b(mat(2, 3)))), Ok(Shape::Matrix(2, 3)));
    assert_eq!(shape(&Expr::Mul(b(mat(2, 3)), b(n(2.0)))), Ok(Shape::Matrix(2, 3)));
    assert_eq!(shape(&Expr::Mul(b(mat(2, 3)), b(mat(3, 5)))), Ok(Shape::Matrix(2, 5)));
    assert_eq!(shape(&Expr::Mul(b(mat(2, 3)), b(vector(3)))), Ok(Shape::Vector(2)));
    assert_eq!(
        shape(&Expr::Mul(b(mat(2, 3)), b(mat(2, 3)))),
        Err(EngineError::DimensionMismatch { expected: Shape::Matrix(2, 3), actual: Shape::Matrix(2, 3) })
    );
    assert_eq!(
        shape(&Expr::Mul(b(mat(2, 3)), b(vector(2)))),
        Err(EngineError::DimensionMismatch { expected: Shape::Matrix(2, 3), actual: Shape::Vector(2) })
    );
    assert_eq!(
        shape(&Expr::Mul(b(vector(2)), b(vector(2)))),
        Err(EngineError::TypeError(TypeFault::InvalidMultiplication))
    );
}

#[test]
fn quantum_operations_have_their_shapes() {
    assert_eq!(shape(&Expr::Dagger(b(mat(2, 3)))), Ok(Shape::Matrix(3, 2)));
    assert_eq!(shape(&Expr::Dagger(b(vector(3)))), Ok(Shape::Vector(3)));
    assert_eq!(shape(&Expr::Trace(b(mat(3, 3)))), Ok(Shape::Scalar));
    assert_eq!(shape(&Expr::Trace(b(mat(2, 3)))), Err(EngineError::TypeError(TypeFault::TraceOperand)));
    assert_eq!(shape(&Expr::Tensor(b(mat(2, 2)), b(mat(2, 2)))), Ok(Shape::Matrix(4, 4)));
    assert_eq!(shape(&Expr::Tensor(b(mat(2, 3)), b(mat(4, 5)))), Ok(Shape::Matrix(8, 15)));
    assert_eq!(shape(&Expr::Tensor(b(vector(2)), b(vector(3)))), Ok(Shape::Vector(6)));
    assert_eq!(
        shape(&Expr::Tensor(b(vector(2)), b(mat(3, 3)))),
        Err(EngineError::TypeError(TypeFault::TensorOperands))
    );
    assert_eq!(shape(&Expr::Commutator(b(mat(2, 2)), b(id("sigma_x")))), Ok(Shape::Matrix(2, 2)));
    assert_eq!(
        shape(&Expr::AntiCommutator(b(mat(2, 2)), b(mat(3, 3)))),
        Err(EngineError::TypeError(TypeFault::CommutatorOperands))
    );
    assert_eq!(shape(&Expr::Expm(b(mat(2, 2)))), Ok(Shape::Matrix(2, 2)));
    assert_eq!(shape(&Expr::Sqrt(b(n(4.0)))), Ok(Shape::Scalar));
    assert_eq!(
        shape(&Expr::Expm(b(mat(2, 3)))),
        Err(EngineError::TypeError(TypeFault::MatrixFunctionOperand))
    );
    assert_eq!(shape(&Expr::Sin(b(mat(2, 3)))), Ok(Shape::Scalar));
    assert_eq!(shape(&Expr::Div(b(mat(2, 3)), b(n(2.0)))), Ok(Shape::Matrix(2, 3)));
    assert_eq!(
        shape(&Expr::Div(b(n(2.0)), b(mat(2, 3)))),
        Err(EngineError::TypeError(TypeFault::NonScalarDivisor))
    );
    assert_eq!(shape(&Expr::Pow(b(mat(2, 2)), b(n(2.0)))), Ok(Shape::Matrix(2, 2)));
    assert_eq!(shape(&Expr::FuncCall { name: "f".to_string(), args: vec![] }), Ok(Shape::Scalar));
}

#[test]
fn tensor_dimensions_must_fit_the_word() {
    let mut checker = TypeChecker::new();
    checker.shapes.insert("big".to_string(), Shape::Matrix(usize::MAX, 1));
    let e = Expr::Tensor(b(id("big")), b(mat(2, 1)));
    assert_eq!(checker.infer_expr_shape(&e), Err(EngineError::TypeError(TypeFault::DimensionOverflow)));
}

#[test]
fn program_check_records_shapes_in_order() {
    let mut checker = TypeChecker::new();
    let ast = Ast::new(vec![
        Statement::ConstDecl { name: "omega".to_string(), value: Real { bits: 1f64.to_bits() } },
        Statement::MatrixDecl { name: "A".to_string(), value: lit(2, 3) },
        Statement::HamiltonianDef {
            name: "H".to_string(),
            params: vec![],
            expr: b(Expr::Mul(b(id("omega")), b(id("sigma_z")))),
        },
    ]);
    let typed = checker.check(ast).unwrap();
    let name = |s: &str| s.to_string();
    assert_eq!(typed.shapes.get(&name("omega")), Some(&Shape::Scalar));
    assert_eq!(typed.shapes.get(&name("A")), Some(&Shape::Matrix(2, 3)));
    assert_eq!(typed.shapes.get(&name("H")), Some(&Shape::Matrix(2, 2)));
    assert_eq!(typed.shapes.get(&name("B")), None);
    assert_eq!(typed.ast.statements.len(), 3);
}

#[test]
fn hamiltonian_must_be_square() {
    let mut checker = TypeChecker::new();
    let ast = Ast::new(vec![Statement::HamiltonianDef {
        name: "H".to_string(),
        params: vec![],
        expr: b(mat(2, 3)),
    }]);
    assert_eq!(
        checker.check(ast).err(),
        Some(EngineError::TypeError(TypeFault::HamiltonianNotSquare {
            name: "H".to_string(),
            shape: Shape::Matrix(2, 3),
        }))
    );
}

#[test]
fn dimension_mismatch_ends_the_check() {
    // matrix A = [[1, 0]]; matrix B = [[1], [0], [1]]; H = A * B
    let mut checker = TypeChecker::new();
    let ast = Ast::new(vec![
        Statement::MatrixDecl { name: "A".to_string(), value: lit(1, 2) },
        Statement::MatrixDecl { name: "B".to_string(), value: lit(3, 1) },
        Statement::HamiltonianDef {
            name: "C".to_string(),
            params: vec![],
            expr: b(Expr::Mul(b(id("A")), b(id("B")))),
        },
    ]);
    assert_eq!(
        checker.check(ast).err(),
        Some(EngineError::DimensionMismatch { expected: Shape::Matrix(1, 2), actual: Shape::Matrix(3, 1) })
    );
}

#[test]
fn measurement_operators_need_one_shape() {
    let checker = TypeChecker::new();
    let good = MeasurementSpec::Projective { projectors: vec![lit(2, 2), lit(2, 2)] };
    assert_eq!(checker.check_measurement_spec(&good), Ok(()));
    let empty = MeasurementSpec::Projective { projectors: vec![] };
    assert_eq!(
        checker.check_measurement_spec(&empty),
        Err(EngineError::ValidationError(ValidationFault::EmptyProjectorSet))
    );
    let none = MeasurementSpec::POVM { effects: vec![] };
    assert_eq!(
        checker.check_measurement_spec(&none),
        Err(EngineError::ValidationError(ValidationFault::EmptyEffectSet))
    );
    let mixed = MeasurementSpec::POVM { effects: vec![lit(2, 2), lit(3, 3)] };
    assert_eq!(
        checker.check_measurement_spec(&mixed),
        Err(EngineError::DimensionMismatch { expected: Shape::Matrix(2, 2), actual: Shape::Matrix(3, 3) })
    );
}

#[test]
fn initial_density_matrix_must_be_square() {
    let checker = TypeChecker::new();
    let body = |init| ExperimentBody { init, evolution: None, measurements: None };
    assert_eq!(checker.check_experiment_body(&body(None)), Ok(()));
    assert_eq!(checker.check_experiment_body(&body(Some(StateSpec::Rho(lit(2, 2))))), Ok(()));
    assert_eq!(
        checker.check_experiment_body(&body(Some(StateSpec::Rho(lit(2, 3))))),
        Err(EngineError::TypeError(TypeFault::DensityMatrixNotSquare))
    );
    let ket = VectorLiteral { elements: vec![n(1.0), n(0.0)] };
    assert_eq!(checker.check_experiment_body(&body(Some(StateSpec::Ket(ket)))), Ok(()));
}
