use num_complex::Complex64;
use quantum_theory_engine::arith::Arithmetic;
use quantum_theory_engine::ast::{
    Ast, Expr, ExperimentBody, MatrixLiteral, MeasurementSpec, Statement, StateSpec, VectorLiteral,
};
use quantum_theory_engine::error::{EngineError, QuantumFault, UnsupportedFeature, ValidationFault};
use quantum_theory_engine::matrix::Matrix;
use quantum_theory_engine::scalar::{Complex, Real};
use quantum_theory_engine::symbols::SymbolTable;
use quantum_theory_engine::typechecker::{Shape, TypeChecker, TypedAst};
use quantum_theory_engine::validator::{
    check_density, check_hermitian, check_ket, check_psd, check_trace, evaluate_expr_to_complex,
    evaluate_expr_to_matrix, evaluate_matrix_literal, max_norm, validate_experiment,
    validate_measurement, QuantumValidator,
};

fn num(x: f64) -> Real {
    Real { bits: x.to_bits() }
}

fn val(r: Real) -> f64 {
    f64::from_bits(r.bits)
}

fn complex(re: f64, im: f64) -> Complex {
    Complex { re: num(re), im: num(im) }
}

fn c64(z: Complex) -> Complex64 {
    Complex64::new(val(z.re), val(z.im))
}

fn bits(z: Complex64) -> Complex {
    complex(z.re, z.im)
}

/// Binary64 arithmetic, with the complex operations of `num_complex`.
struct Ieee;

impl Arithmetic for Ieee {
    fn add_real(&self, a: Real, b: Real) -> Real {
        num(val(a) + val(b))
    }

    fn sub_real(&self, a: Real, b: Real) -> Real {
        num(val(a) - val(b))
    }

    fn mul_real(&self, a: Real, b: Real) -> Real {
        num(val(a) * val(b))
    }

    fn div_real(&self, a: Real, b: Real) -> Real {
        num(val(a) / val(b))
    }

    fn exp_real(&self, a: Real) -> Real {
        num(val(a).exp())
    }

    fn ln_real(&self, a: Real) -> Real {
        num(val(a).ln())
    }

    fn sqrt_real(&self, a: Real) -> Real {
        num(val(a).sqrt())
    }

    fn count_from_real(&self, a: Real) -> usize {
        val(a) as usize
    }

    fn real_from_count(&self, n: usize) -> Real {
        num(n as f64)
    }

    fn add_complex(&self, a: Complex, b: Complex) -> Complex {
        bits(c64(a) + c64(b))
    }

    fn sub_complex(&self, a: Complex, b: Complex) -> Complex {
        bits(c64(a) - c64(b))
    }

    fn mul_complex(&self, a: Complex, b: Complex) -> Complex {
        bits(c64(a) * c64(b))
    }

    fn div_complex(&self, a: Complex, b: Complex) -> Complex {
        bits(c64(a) / c64(b))
    }

    fn norm(&self, a: Complex) -> Real {
        num(c64(a).norm())
    }

    fn norm_sqr(&self, a: Complex) -> Real {
        num(c64(a).norm_sqr())
    }

    fn eigh(&self, rows: &Vec<Vec<Complex>>) -> Option<(Vec<Real>, Vec<Vec<Complex>>)> {
        jacobi(rows)
    }
}

/// Eigenvalues and eigenvectors of a Hermitian matrix by cyclic Jacobi
/// rotations; the eigenvectors are the columns of the second component.
fn jacobi(rows: &Vec<Vec<Complex>>) -> Option<(Vec<Real>, Vec<Vec<Complex>>)> {
    let n = rows.len();
    let mut a: Vec<Vec<Complex64>> = rows.iter().map(|r| r.iter().map(|z| c64(*z)).collect()).collect();
    if a.iter().any(|r| r.len() != n) {
        return None;
    }
    let mut v: Vec<Vec<Complex64>> = (0..n)
        .map(|i| (0..n).map(|j| if i == j { Complex64::new(1.0, 0.0) } else { Complex64::new(0.0, 0.0) }).collect())
        .collect();
    for _sweep in 0..100 {
        let mut off = 0.0;
        for p in 0..n {
            for q in 0..n {
                if p != q {
                    off += a[p][q].norm_sqr();
                }
            }
        }
        if off < 1e-30 {
            break;
        }
        for p in 0..n {
            for q in (p + 1)..n {
                let apq = a[p][q];
                if apq.norm() < 1e-300 {
                    continue;
                }
                let phase = apq / apq.norm();
                let app = a[p][p].re;
                let aqq = a[q][q].re;
                let theta = 0.5 * (2.0 * apq.norm()).atan2(app - aqq);
                let c = theta.cos();
                let s = theta.sin();
                // columns p and q of the rotation
                let upp = Complex64::new(c, 0.0);
                let upq = -phase * s;
                let uqp = phase.conj() * s;
                let uqq = Complex64::new(c, 0.0);
                // a <- a u
                for k in 0..n {
                    let akp = a[k][p];
                    let akq = a[k][q];
                    a[k][p] = akp * upp + akq * uqp;
                    a[k][q] = akp * upq + akq * uqq;
                }
                // a <- u† a
                for k in 0..n {
                    let apk = a[p][k];
                    let aqk = a[q][k];
                    a[p][k] = upp.conj() * apk + uqp.conj() * aqk;
                    a[q][k] = upq.conj() * apk + uqq.conj() * aqk;
                }
                for k in 0..n {
                    let vkp = v[k][p];
                    let vkq = v[k][q];
                    v[k][p] = vkp * upp + vkq * uqp;
                    v[k][q] = vkp * upq + vkq * uqq;
                }
            }
        }
    }
    let values = (0..n).map(|i| num(a[i][i].re)).collect();
    let vectors = v.iter().map(|r| r.iter().map(|z| bits(*z)).collect()).collect();
    Some((values, vectors))
}

fn matrix(rows: &[&[(f64, f64)]]) -> Matrix {
    let data: Vec<Vec<Complex>> =
        rows.iter().map(|r| r.iter().map(|&(re, im)| complex(re, im)).collect()).collect();
    Matrix::from_rows(data).unwrap()
}

fn at(m: &Matrix, i: usize, j: usize) -> Complex64 {
    c64(m.data[i][j])
}

fn n(x: f64) -> Expr {
    Expr::Number(num(x))
}

fn id(s: &str) -> Expr {
    Expr::Identifier(s.to_string())
}

fn b(e: Expr) -> Box<Expr> {
    Box::new(e)
}

fn lit(rows: &[&[f64]]) -> MatrixLiteral {
    MatrixLiteral { rows: rows.iter().map(|r| r.iter().map(|x| n(*x)).collect()).collect() }
}

fn ket(xs: &[f64]) -> VectorLiteral {
    VectorLiteral { elements: xs.iter().map(|x| n(*x)).collect() }
}

fn typed(statements: Vec<Statement>) -> TypedAst {
    TypeChecker::new().check(Ast::new(statements)).unwrap()
}

fn hamiltonian(name: &str, expr: Expr) -> Statement {
    Statement::HamiltonianDef { name: name.to_string(), params: vec![], expr: b(expr) }
}

fn experiment(init: StateSpec) -> Statement {
    Statement::Experiment {
        name: "e".to_string(),
        body: ExperimentBody { init: Some(init), evolution: None, measurements: None },
    }
}

fn name(s: &str) -> String {
    s.to_string()
}

#[test]
fn test_pauli_hermitian() {
    let validator = QuantumValidator::new();
    let sigma_x = validator.matrices.get(&name("sigma_x")).unwrap();
    assert!(check_hermitian(&Ieee, sigma_x).is_ok());
}

#[test]
fn test_identity_psd() {
    let validator = QuantumValidator::new();
    let identity = validator.matrices.get(&name("identity")).unwrap();
    assert!(check_psd(&Ieee, identity).is_ok());
}

#[test]
fn validator_test_trace_identity() {
    let validator = QuantumValidator::new();
    let identity = validator.matrices.get(&name("identity")).unwrap();
    assert!(check_trace(&Ieee, identity, num(2.0)).is_ok());
}

#[test]
fn builtin_matrices_are_the_pauli_matrices() {
    let v = QuantumValidator::new();
    let x = v.matrices.get(&name("sigma_x")).unwrap();
    let y = v.matrices.get(&name("sigma_y")).unwrap();
    let z = v.matrices.get(&name("sigma_z")).unwrap();
    let i = v.matrices.get(&name("identity")).unwrap();
    assert_eq!(at(x, 0, 1), Complex64::new(1.0, 0.0));
    assert_eq!(at(x, 0, 0), Complex64::new(0.0, 0.0));
    assert_eq!(at(y, 0, 1), Complex64::new(0.0, -1.0));
    assert_eq!(at(y, 1, 0), Complex64::new(0.0, 1.0));
    assert_eq!(at(z, 0, 0), Complex64::new(1.0, 0.0));
    assert_eq!(at(z, 1, 1), Complex64::new(-1.0, 0.0));
    assert_eq!(*i, Matrix::identity(2));
    assert!(v.matrices.get(&name("sigma_w")).is_none());
    for m in [x, y, z, i] {
        assert_eq!(check_hermitian(&Ieee, m), Ok(true));
    }
}

#[test]
fn hermitian_check_measures_the_deviation() {
    let m = matrix(&[&[(1.0, 0.0), (2.0, 0.0)], &[(0.0, 0.0), (1.0, 0.0)]]);
    assert_eq!(check_hermitian(&Ieee, &m), Err(EngineError::NotHermitian { deviation: num(2.0) }));
    let within = matrix(&[&[(1.0, 0.0), (0.5, 5e-11)], &[(0.5, 0.0), (1.0, 0.0)]]);
    assert_eq!(check_hermitian(&Ieee, &within), Ok(true));
    let beyond = matrix(&[&[(1.0, 0.0), (0.5, 2e-10)], &[(0.5, 0.0), (1.0, 0.0)]]);
    assert_eq!(check_hermitian(&Ieee, &beyond), Err(EngineError::NotHermitian { deviation: num(2e-10) }));
    assert_eq!(check_hermitian(&Ieee, &Matrix::zeros(2, 3)), Ok(false));
}

#[test]
fn max_norm_is_the_largest_modulus() {
    let m = matrix(&[&[(1.0, 0.0), (3.0, -4.0)], &[(0.0, 2.0), (-1.0, 0.0)]]);
    assert_eq!(val(max_norm(&Ieee, &m)), 5.0);
    assert_eq!(val(max_norm(&Ieee, &Matrix::zeros(0, 0))), 0.0);
}

#[test]
fn psd_check_looks_at_the_smallest_eigenvalue() {
    let z = matrix(&[&[(1.0, 0.0), (0.0, 0.0)], &[(0.0, 0.0), (-1.0, 0.0)]]);
    match check_psd(&Ieee, &z) {
        Err(EngineError::NotPSD { min_eigenvalue }) => assert!((val(min_eigenvalue) + 1.0).abs() < 1e-12),
        other => panic!("unexpected {:?}", other),
    }
    let projector = matrix(&[&[(0.5, 0.0), (0.5, 0.0)], &[(0.5, 0.0), (0.5, 0.0)]]);
    assert_eq!(check_psd(&Ieee, &projector), Ok(true));
    assert_eq!(
        check_psd(&Ieee, &Matrix::zeros(2, 3)),
        Err(EngineError::ValidationError(ValidationFault::PsdNeedsSquare))
    );
    let skew = matrix(&[&[(1.0, 0.0), (2.0, 0.0)], &[(0.0, 0.0), (1.0, 0.0)]]);
    assert_eq!(
        check_psd(&Ieee, &skew),
        Err(EngineError::ValidationError(ValidationFault::PsdNeedsHermitian))
    );
}

#[test]
fn trace_check_compares_within_the_tolerance() {
    let m = matrix(&[&[(0.5, 0.0), (9.0, 0.0)], &[(9.0, 0.0), (0.25, 0.0)]]);
    assert_eq!(check_trace(&Ieee, &m, num(0.75)), Ok(()));
    assert_eq!(
        check_trace(&Ieee, &m, num(1.0)),
        Err(EngineError::TraceError { expected: num(1.0), actual: num(0.75) })
    );
    assert_eq!(
        check_trace(&Ieee, &Matrix::zeros(1, 2), num(0.0)),
        Err(EngineError::ValidationError(ValidationFault::TraceNeedsSquare))
    );
}

#[test]
fn constant_expressions_are_evaluated() {
    let mut constants: SymbolTable<Real> = SymbolTable::new();
    constants.insert(name("omega"), num(3.0));
    let e = Expr::Div(b(Expr::Add(b(id("omega")), b(n(1.0)))), b(Expr::Mul(b(n(2.0)), b(n(4.0)))));
    assert_eq!(c64(evaluate_expr_to_complex(&Ieee, &constants, &e).unwrap()), Complex64::new(0.5, 0.0));
    let z = Expr::Sub(b(Expr::ComplexNumber(complex(1.0, 2.0))), b(n(3.0)));
    assert_eq!(c64(evaluate_expr_to_complex(&Ieee, &constants, &z).unwrap()), Complex64::new(-2.0, 2.0));
    assert_eq!(
        evaluate_expr_to_complex(&Ieee, &constants, &id("gamma")),
        Err(EngineError::ValidationError(ValidationFault::NotAConstant(name("gamma"))))
    );
    assert_eq!(
        evaluate_expr_to_complex(&Ieee, &constants, &Expr::Sin(b(n(1.0)))),
        Err(EngineError::ValidationError(ValidationFault::NotConstantArithmetic))
    );
    // the left operand's error comes first
    assert_eq!(
        evaluate_expr_to_complex(&Ieee, &constants, &Expr::Add(b(id("a")), b(Expr::Sin(b(n(1.0)))))),
        Err(EngineError::ValidationError(ValidationFault::NotAConstant(name("a"))))
    );
}

#[test]
fn matrix_literals_are_evaluated() {
    let mut constants: SymbolTable<Real> = SymbolTable::new();
    constants.insert(name("a"), num(2.0));
    let l = MatrixLiteral { rows: vec![vec![id("a"), n(1.0)], vec![Expr::Mul(b(id("a")), b(id("a"))), n(0.0)]] };
    let m = evaluate_matrix_literal(&Ieee, &constants, &l).unwrap();
    assert_eq!(m, matrix(&[&[(2.0, 0.0), (1.0, 0.0)], &[(4.0, 0.0), (0.0, 0.0)]]));
    let ragged = MatrixLiteral { rows: vec![vec![n(1.0), n(2.0)], vec![n(3.0)]] };
    assert_eq!(
        evaluate_matrix_literal(&Ieee, &constants, &ragged),
        Err(EngineError::ValidationError(ValidationFault::MalformedMatrix))
    );
    let empty = MatrixLiteral { rows: vec![] };
    assert_eq!(
        evaluate_matrix_literal(&Ieee, &constants, &empty),
        Err(EngineError::ValidationError(ValidationFault::MalformedMatrix))
    );
}

#[test]
fn matrix_expressions_are_evaluated() {
    let v = QuantumValidator::new();
    let e = Expr::Sub(
        b(Expr::Mul(b(id("sigma_x")), b(id("sigma_y")))),
        b(Expr::Mul(b(id("sigma_y")), b(id("sigma_x")))),
    );
    let m = evaluate_expr_to_matrix(&Ieee, &v.constants, &v.matrices, &e).unwrap();
    assert_eq!(at(&m, 0, 0), Complex64::new(0.0, 2.0));
    assert_eq!(at(&m, 1, 1), Complex64::new(0.0, -2.0));
    assert_eq!(
        evaluate_expr_to_matrix(&Ieee, &v.constants, &v.matrices, &id("nothing")),
        Err(EngineError::ValidationError(ValidationFault::MatrixNotFound(name("nothing"))))
    );
    assert_eq!(
        evaluate_expr_to_matrix(&Ieee, &v.constants, &v.matrices, &Expr::Dagger(b(id("sigma_x")))),
        Err(EngineError::Unsupported(UnsupportedFeature::MatrixExpression))
    );
    let wide = Expr::Matrix(lit(&[&[1.0, 2.0, 3.0]]));
    assert_eq!(
        evaluate_expr_to_matrix(&Ieee, &v.constants, &v.matrices, &Expr::Add(b(id("sigma_x")), b(wide))),
        Err(EngineError::DimensionMismatch { expected: Shape::Matrix(2, 2), actual: Shape::Matrix(1, 3) })
    );
}

#[test]
fn validator_rejects_a_hamiltonian_that_is_not_hermitian() {
    let program = typed(vec![
        Statement::MatrixDecl { name: name("non_hermitian"), value: lit(&[&[1.0, 2.0], &[0.0, 1.0]]) },
        hamiltonian("H", id("non_hermitian")),
    ]);
    let r = QuantumValidator::new().validate(&Ieee, program);
    assert_eq!(
        r.err(),
        Some(EngineError::QuantumConstraintError(QuantumFault::HamiltonianNotHermitian {
            name: name("H"),
            deviation: Some(num(2.0)),
        }))
    );
}

#[test]
fn validator_accepts_a_hermitian_hamiltonian() {
    let program = typed(vec![
        Statement::MatrixDecl { name: name("Z"), value: lit(&[&[1.0, 0.0], &[0.0, -1.0]]) },
        hamiltonian("H", id("Z")),
    ]);
    let mut validator = QuantumValidator::new();
    let validated = validator.validate(&Ieee, program).unwrap();
    assert_eq!(validated.validation_results.hermitian_operators.get(&name("H")), Some(&true));
    assert_eq!(validator.matrices.get(&name("H")), validator.matrices.get(&name("Z")));
    assert_eq!(validated.typed_ast.ast.statements.len(), 2);
}

#[test]
fn validator_rejects_a_ket_that_is_not_normalized() {
    let program = typed(vec![experiment(StateSpec::Ket(ket(&[1.0, 1.0])))]);
    let r = QuantumValidator::new().validate(&Ieee, program);
    assert_eq!(
        r.err(),
        Some(EngineError::QuantumConstraintError(QuantumFault::KetNotNormalized { norm_sqr: num(2.0) }))
    );
    let good = typed(vec![experiment(StateSpec::Ket(ket(&[1.0, 0.0])))]);
    assert!(QuantumValidator::new().validate(&Ieee, good).is_ok());
    assert_eq!(check_ket(&Ieee, &vec![complex(0.6, 0.0), complex(0.0, 0.8)]), Ok(()));
}

#[test]
fn validator_checks_an_initial_density_matrix() {
    let constants: SymbolTable<Real> = SymbolTable::new();
    let body = |m: MatrixLiteral| ExperimentBody { init: Some(StateSpec::Rho(m)), evolution: None, measurements: None };
    assert_eq!(validate_experiment(&Ieee, &constants, &body(lit(&[&[0.5, 0.0], &[0.0, 0.5]]))), Ok(()));
    assert_eq!(
        validate_experiment(&Ieee, &constants, &body(lit(&[&[0.5, 0.0], &[0.0, 0.25]]))),
        Err(EngineError::TraceError { expected: num(1.0), actual: num(0.75) })
    );
    assert_eq!(
        validate_experiment(&Ieee, &constants, &body(lit(&[&[0.5, 0.5], &[0.0, 0.5]]))),
        Err(EngineError::NotHermitian { deviation: num(0.5) })
    );
    match validate_experiment(&Ieee, &constants, &body(lit(&[&[1.5, 0.0], &[0.0, -0.5]]))) {
        Err(EngineError::NotPSD { min_eigenvalue }) => assert!((val(min_eigenvalue) + 0.5).abs() < 1e-12),
        other => panic!("unexpected {:?}", other),
    }
    let none = ExperimentBody { init: None, evolution: None, measurements: None };
    assert_eq!(validate_experiment(&Ieee, &constants, &none), Ok(()));
    assert_eq!(check_density(&Ieee, &Matrix::zeros(2, 3)), Err(EngineError::ValidationError(ValidationFault::PsdNeedsSquare)));
}

#[test]
fn validator_checks_projective_measurements() {
    let constants: SymbolTable<Real> = SymbolTable::new();
    let m = name("M");
    let complete = MeasurementSpec::Projective {
        projectors: vec![lit(&[&[1.0, 0.0], &[0.0, 0.0]]), lit(&[&[0.0, 0.0], &[0.0, 1.0]])],
    };
    assert_eq!(validate_measurement(&Ieee, &constants, &m, &complete), Ok(()));
    let incomplete = MeasurementSpec::Projective { projectors: vec![lit(&[&[1.0, 0.0], &[0.0, 0.0]])] };
    assert_eq!(
        validate_measurement(&Ieee, &constants, &m, &incomplete),
        Err(EngineError::QuantumConstraintError(QuantumFault::ProjectorsIncomplete {
            measurement: m.clone(),
            deviation: num(1.0),
        }))
    );
    let not_idempotent = MeasurementSpec::Projective {
        projectors: vec![lit(&[&[1.0, 0.0], &[0.0, 0.0]]), lit(&[&[0.0, 0.0], &[0.0, 2.0]])],
    };
    assert_eq!(
        validate_measurement(&Ieee, &constants, &m, &not_idempotent),
        Err(EngineError::QuantumConstraintError(QuantumFault::ProjectorNotIdempotent {
            index: 1,
            measurement: m.clone(),
            deviation: num(2.0),
        }))
    );
    let not_hermitian = MeasurementSpec::Projective { projectors: vec![lit(&[&[1.0, 1.0], &[0.0, 0.0]])] };
    assert_eq!(
        validate_measurement(&Ieee, &constants, &m, &not_hermitian),
        Err(EngineError::NotHermitian { deviation: num(1.0) })
    );
    let wide = MeasurementSpec::Projective { projectors: vec![lit(&[&[1.0, 0.0, 0.0]])] };
    assert_eq!(
        validate_measurement(&Ieee, &constants, &m, &wide),
        Err(EngineError::DimensionMismatch { expected: Shape::Matrix(1, 1), actual: Shape::Matrix(1, 3) })
    );
    let none = MeasurementSpec::Projective { projectors: vec![] };
    assert_eq!(validate_measurement(&Ieee, &constants, &m, &none), Ok(()));
}

#[test]
fn validator_checks_povm_measurements() {
    let constants: SymbolTable<Real> = SymbolTable::new();
    let m = name("M");
    let complete = MeasurementSpec::POVM {
        effects: vec![lit(&[&[0.5, 0.0], &[0.0, 0.5]]), lit(&[&[0.5, 0.0], &[0.0, 0.5]])],
    };
    assert_eq!(validate_measurement(&Ieee, &constants, &m, &complete), Ok(()));
    let negative = MeasurementSpec::POVM {
        effects: vec![lit(&[&[1.5, 0.0], &[0.0, 1.0]]), lit(&[&[-0.5, 0.0], &[0.0, 0.0]])],
    };
    match validate_measurement(&Ieee, &constants, &m, &negative) {
        Err(EngineError::QuantumConstraintError(QuantumFault::EffectNotPsd {
            index,
            measurement,
            min_eigenvalue: Some(least),
        })) => {
            assert_eq!(index, 1);
            assert_eq!(measurement, m);
            assert!((val(least) + 0.5).abs() < 1e-12);
        }
        other => panic!("unexpected result: {:?}", other),
    }
    let skew = MeasurementSpec::POVM { effects: vec![lit(&[&[1.0, 1.0], &[0.0, 1.0]])] };
    assert_eq!(
        validate_measurement(&Ieee, &constants, &m, &skew),
        Err(EngineError::QuantumConstraintError(QuantumFault::EffectNotPsd {
            index: 0,
            measurement: m.clone(),
            min_eigenvalue: None,
        }))
    );
    let incomplete = MeasurementSpec::POVM { effects: vec![lit(&[&[0.5, 0.0], &[0.0, 0.5]])] };
    assert_eq!(
        validate_measurement(&Ieee, &constants, &m, &incomplete),
        Err(EngineError::QuantumConstraintError(QuantumFault::EffectsIncomplete {
            measurement: m.clone(),
            deviation: num(0.5),
        }))
    );
}

#[test]
fn validation_stops_at_the_first_violation() {
    let program = typed(vec![
        Statement::ConstDecl { name: name("omega"), value: num(1.0) },
        experiment(StateSpec::Ket(ket(&[1.0, 1.0]))),
        Statement::MatrixDecl { name: name("bad"), value: lit(&[&[1.0, 2.0], &[0.0, 1.0]]) },
        hamiltonian("H", id("bad")),
    ]);
    let mut validator = QuantumValidator::new();
    let r = validator.validate(&Ieee, program);
    assert_eq!(
        r.err(),
        Some(EngineError::QuantumConstraintError(QuantumFault::KetNotNormalized { norm_sqr: num(2.0) }))
    );
    // what came before the violation was recorded, what came after was not
    assert_eq!(validator.constants.get(&name("omega")), Some(&num(1.0)));
    assert!(validator.matrices.get(&name("bad")).is_none());
}

#[test]
fn hamiltonian_with_a_scalar_factor_is_checked_and_recorded() {
    // (omega / 2) * sigma_z: the factor is arithmetic over constants
    let program = typed(vec![
        Statement::ConstDecl { name: name("omega"), value: num(1.0) },
        hamiltonian("H", Expr::Mul(b(Expr::Div(b(id("omega")), b(n(2.0)))), b(id("sigma_z")))),
        hamiltonian("G", Expr::Mul(b(id("sigma_x")), b(n(3.0)))),
    ]);
    let mut validator = QuantumValidator::new();
    let validated = validator.validate(&Ieee, program).unwrap();
    let results = &validated.validation_results;
    assert_eq!(results.hermitian_operators.get(&name("H")), Some(&true));
    assert_eq!(results.hermitian_operators.get(&name("G")), Some(&true));
    let h = validator.matrices.get(&name("H")).unwrap();
    assert_eq!((h.rows(), h.cols()), (2, 2));
    assert_eq!(h.get(0, 0), Complex::new(num(0.5), num(0.0)));
    assert_eq!(val(h.get(1, 1).re), -0.5);
    assert_eq!(val(h.get(0, 1).re), 0.0);
    let g = validator.matrices.get(&name("G")).unwrap();
    assert_eq!(val(g.get(0, 1).re), 3.0);
    // no declaration asks for these records
    assert_eq!(results.psd_operators.len(), 0);
    assert_eq!(results.trace_values.len(), 0);
}

#[test]
fn hamiltonian_with_a_scalar_factor_must_be_hermitian() {
    let program = typed(vec![
        Statement::MatrixDecl { name: name("bad"), value: lit(&[&[1.0, 2.0], &[0.0, 1.0]]) },
        hamiltonian("H", Expr::Mul(b(n(2.0)), b(id("bad")))),
    ]);
    assert_eq!(
        QuantumValidator::new().validate(&Ieee, program).err(),
        Some(EngineError::QuantumConstraintError(QuantumFault::HamiltonianNotHermitian {
            name: name("H"),
            deviation: Some(num(4.0)),
        }))
    );
}

#[test]
fn declaration_that_cannot_be_evaluated_is_an_error() {
    // no operation of the validator stands for a conjugate transpose
    let form = typed(vec![hamiltonian("H", Expr::Dagger(b(id("sigma_z"))))]);
    assert_eq!(
        QuantumValidator::new().validate(&Ieee, form).err(),
        Some(EngineError::Unsupported(UnsupportedFeature::MatrixExpression))
    );
    let mut validator = QuantumValidator::new();
    let mut results = quantum_theory_engine::validator::ValidationResults {
        hermitian_operators: SymbolTable::new(),
        psd_operators: SymbolTable::new(),
        trace_values: SymbolTable::new(),
    };
    // a name that is no matrix
    assert_eq!(
        validator.validate_statement(&Ieee, &hamiltonian("H", id("K")), &mut results),
        Err(EngineError::ValidationError(ValidationFault::MatrixNotFound(name("K"))))
    );
    // a literal with an element that is no constant
    let literal = MatrixLiteral { rows: vec![vec![id("x")]] };
    assert_eq!(
        validator.validate_statement(
            &Ieee,
            &Statement::MatrixDecl { name: name("M"), value: literal },
            &mut results
        ),
        Err(EngineError::ValidationError(ValidationFault::NotAConstant(name("x"))))
    );
    assert!(validator.matrices.get(&name("M")).is_none());
    assert_eq!(results.hermitian_operators.len(), 0);
}

#[test]
fn values_that_are_not_numbers_fail_the_checks() {
    let nan = f64::NAN;
    let m = Matrix::from_rows(vec![
        vec![Complex::new(num(1.0), num(0.0)), Complex::new(num(nan), num(0.0))],
        vec![Complex::new(num(nan), num(0.0)), Complex::new(num(1.0), num(0.0))],
    ])
    .unwrap();
    match check_hermitian(&Ieee, &m) {
        Err(EngineError::NotHermitian { deviation }) => assert!(val(deviation).is_nan()),
        other => panic!("unexpected {:?}", other),
    }
    assert!(val(max_norm(&Ieee, &m)).is_nan());
    let diagonal = Matrix::from_rows(vec![
        vec![Complex::new(num(nan), num(0.0)), Complex::new(num(0.0), num(0.0))],
        vec![Complex::new(num(0.0), num(0.0)), Complex::new(num(1.0), num(0.0))],
    ])
    .unwrap();
    assert!(matches!(check_trace(&Ieee, &diagonal, num(1.0)), Err(EngineError::TraceError { .. })));
    let state = vec![Complex::new(num(nan), num(0.0)), Complex::new(num(0.0), num(0.0))];
    assert!(matches!(
        check_ket(&Ieee, &state),
        Err(EngineError::QuantumConstraintError(QuantumFault::KetNotNormalized { .. }))
    ));
}

