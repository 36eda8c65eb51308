use num_complex::Complex64;
use quantum_theory_engine::arith::Arithmetic;
use quantum_theory_engine::ast::{
    Ast, EvolutionSpec, Expr, ExperimentBody, LindbladTerm, MatrixLiteral, Statement, StateSpec,
    TimeGrid, VectorLiteral,
};
use quantum_theory_engine::error::{
    EngineError, ExecutionFault, InternalFault, UnsupportedFeature, ValidationFault,
};
use quantum_theory_engine::executor::{
    BackendConfig, BackendType, ExecutionResult, Executor, StateType,
};
use quantum_theory_engine::ir::{
    EvolutionMethod, IrEvolution, IrExperiment, IrMeasurement, IrNode, IrProgram,
    LindbladOperator, MeasurementType,
};
use quantum_theory_engine::lowering::Lowerer;
use quantum_theory_engine::matrix::Matrix;
use quantum_theory_engine::scalar::{Complex, Real};
use quantum_theory_engine::typechecker::{Shape, TypeChecker};
use quantum_theory_engine::validator::{QuantumValidator, ValidatedAst};

fn num(x: f64) -> Real {
    Real { bits: x.to_bits() }
}

fn val(r: Real) -> f64 {
    f64::from_bits(r.bits)
}

fn complex(re: f64, im: f64) -> Complex {
    Complex { re: num(re), im: num(im) }
}

fn c64(z: Complex) -> Complex64 {
    Complex64::new(val(z.re), val(z.im))
}

fn bits(z: Complex64) -> Complex {
    complex(z.re, z.im)
}

/// Binary64 arithmetic, with the complex operations of `num_complex`.
struct Ieee;

impl Arithmetic for Ieee {
    fn add_real(&self, a: Real, b: Real) -> Real {
        num(val(a) + val(b))
    }

    fn sub_real(&self, a: Real, b: Real) -> Real {
        num(val(a) - val(b))
    }

    fn mul_real(&self, a: Real, b: Real) -> Real {
        num(val(a) * val(b))
    }

    fn div_real(&self, a: Real, b: Real) -> Real {
        num(val(a) / val(b))
    }

    fn exp_real(&self, a: Real) -> Real {
        num(val(a).exp())
    }

    fn ln_real(&self, a: Real) -> Real {
        num(val(a).ln())
    }

    fn sqrt_real(&self, a: Real) -> Real {
        num(val(a).sqrt())
    }

    fn count_from_real(&self, a: Real) -> usize {
        val(a) as usize
    }

    fn real_from_count(&self, n: usize) -> Real {
        num(n as f64)
    }

    fn add_complex(&self, a: Complex, b: Complex) -> Complex {
        bits(c64(a) + c64(b))
    }

    fn sub_complex(&self, a: Complex, b: Complex) -> Complex {
        bits(c64(a) - c64(b))
    }

    fn mul_complex(&self, a: Complex, b: Complex) -> Complex {
        bits(c64(a) * c64(b))
    }

    fn div_complex(&self, a: Complex, b: Complex) -> Complex {
        bits(c64(a) / c64(b))
    }

    fn norm(&self, a: Complex) -> Real {
        num(c64(a).norm())
    }

    fn norm_sqr(&self, a: Complex) -> Real {
        num(c64(a).norm_sqr())
    }

    fn eigh(&self, rows: &Vec<Vec<Complex>>) -> Option<(Vec<Real>, Vec<Vec<Complex>>)> {
        jacobi(rows)
    }
}

/// Eigenvalues and eigenvectors of a Hermitian matrix by cyclic Jacobi
/// rotations; the eigenvectors are the columns of the second component.
fn jacobi(rows: &Vec<Vec<Complex>>) -> Option<(Vec<Real>, Vec<Vec<Complex>>)> {
    let n = rows.len();
    let mut a: Vec<Vec<Complex64>> = rows.iter().map(|r| r.iter().map(|z| c64(*z)).collect()).collect();
    if a.iter().any(|r| r.len() != n) {
        return None;
    }
    let mut v: Vec<Vec<Complex64>> = (0..n)
        .map(|i| (0..n).map(|j| if i == j { Complex64::new(1.0, 0.0) } else { Complex64::new(0.0, 0.0) }).collect())
        .collect();
    for _sweep in 0..100 {
        let mut off = 0.0;
        for p in 0..n {
            for q in 0..n {
                if p != q {
                    off += a[p][q].norm_sqr();
                }
            }
        }
        if off < 1e-30 {
            break;
        }
        for p in 0..n {
            for q in (p + 1)..n {
                let apq = a[p][q];
                if apq.norm() < 1e-300 {
                    continue;
                }
                let phase = apq / apq.norm();
                let app = a[p][p].re;
                let aqq = a[q][q].re;
                let theta = 0.5 * (2.0 * apq.norm()).atan2(app - aqq);
                let c = theta.cos();
                let s = theta.sin();
                // columns p and q of the rotation
                let upp = Complex64::new(c, 0.0);
                let upq = -phase * s;
                let uqp = phase.conj() * s;
                let uqq = Complex64::new(c, 0.0);
                // a <- a u
                for k in 0..n {
                    let akp = a[k][p];
                    let akq = a[k][q];
                    a[k][p] = akp * upp + akq * uqp;
                    a[k][q] = akp * upq + akq * uqq;
                }
                // a <- u† a
                for k in 0..n {
                    let apk = a[p][k];
                    let aqk = a[q][k];
                    a[p][k] = upp.conj() * apk + uqp.conj() * aqk;
                    a[q][k] = upq.conj() * apk + uqq.conj() * aqk;
                }
                for k in 0..n {
                    let vkp = v[k][p];
                    let vkq = v[k][q];
                    v[k][p] = vkp * upp + vkq * uqp;
                    v[k][q] = vkp * upq + vkq * uqq;
                }
            }
        }
    }
    let values = (0..n).map(|i| num(a[i][i].re)).collect();
    let vectors = v.iter().map(|r| r.iter().map(|z| bits(*z)).collect()).collect();
    Some((values, vectors))
}

fn matrix(rows: &[&[(f64, f64)]]) -> Matrix {
    let data: Vec<Vec<Complex>> =
        rows.iter().map(|r| r.iter().map(|&(re, im)| complex(re, im)).collect()).collect();
    Matrix::from_rows(data).unwrap()
}

fn at(m: &Matrix, i: usize, j: usize) -> Complex64 {
    c64(m.data[i][j])
}

fn n(x: f64) -> Expr {
    Expr::Number(num(x))
}

fn id(s: &str) -> Expr {
    Expr::Identifier(s.to_string())
}

fn b(e: Expr) -> Box<Expr> {
    Box::new(e)
}

fn lit(rows: &[&[f64]]) -> MatrixLiteral {
    MatrixLiteral { rows: rows.iter().map(|r| r.iter().map(|x| n(*x)).collect()).collect() }
}

fn ket(xs: &[f64]) -> VectorLiteral {
    VectorLiteral { elements: xs.iter().map(|x| n(*x)).collect() }
}

fn name(s: &str) -> String {
    s.to_string()
}

fn validated(statements: Vec<Statement>) -> ValidatedAst {
    let typed = TypeChecker::new().check(Ast::new(statements)).expect("Type check failed");
    QuantumValidator::new().validate(&Ieee, typed).expect("Validation failed")
}

fn lower(statements: Vec<Statement>) -> Result<IrProgram, EngineError> {
    Lowerer::new().lower(&Ieee, &validated(statements))
}

fn hamiltonian(h: &str, expr: Expr) -> Statement {
    Statement::HamiltonianDef { name: h.to_string(), params: vec![], expr: b(expr) }
}

fn experiment(init: StateSpec, evolution: Option<EvolutionSpec>) -> Statement {
    Statement::Experiment {
        name: name("simple"),
        body: ExperimentBody { init: Some(init), evolution, measurements: None },
    }
}

fn simple_program() -> Vec<Statement> {
    vec![
        Statement::ConstDecl { name: name("omega"), value: num(1.0) },
        Statement::MatrixDecl { name: name("sigma_z"), value: lit(&[&[1.0, 0.0], &[0.0, -1.0]]) },
        hamiltonian("H", Expr::Mul(b(Expr::Div(b(id("omega")), b(n(2.0)))), b(id("sigma_z")))),
        experiment(StateSpec::Ket(ket(&[1.0, 0.0])), None),
    ]
}

fn is_ordered(program: &IrProgram) -> bool {
    program.nodes.iter().enumerate().all(|(k, node)| {
        let operands: Vec<usize> = match node {
            IrNode::MatrixAdd { left, right, .. }
            | IrNode::MatrixMul { left, right, .. }
            | IrNode::TensorProduct { left, right, .. }
            | IrNode::Commutator { left, right, .. } => vec![*left, *right],
            IrNode::Dagger { input, .. } | IrNode::MatrixExp { input, .. } | IrNode::Trace { input, .. } => {
                vec![*input]
            }
            _ => vec![],
        };
        node.id() == k && operands.iter().all(|o| *o < k)
    })
}

#[test]
fn test_timegrid_regular() {
    let grid = TimeGrid::Regular { t0: num(0.0), dt: num(0.1), n_steps: 10 };
    let times = grid.get_times(&Ieee);
    assert_eq!(times.len(), 11);
    assert_eq!(val(times[0]), 0.0);
    assert!((val(times[10]) - 1.0).abs() < 1e-10);
}

#[test]
fn test_timegrid_explicit() {
    let grid = TimeGrid::Explicit { times: vec![num(0.0), num(0.5), num(1.0)] };
    assert_eq!(grid.len(), 3);
    assert_eq!(grid.get_times(&Ieee), vec![num(0.0), num(0.5), num(1.0)]);
}

#[test]
fn timegrid_points_are_start_plus_multiples_of_the_step() {
    let grid = TimeGrid::Regular { t0: num(1.0), dt: num(0.25), n_steps: 4 };
    let times: Vec<f64> = grid.get_times(&Ieee).iter().map(|t| val(*t)).collect();
    assert_eq!(times, vec![1.0, 1.25, 1.5, 1.75, 2.0]);
    assert_eq!(grid.len(), 5);
    assert!(!grid.is_empty());
    assert!(TimeGrid::Explicit { times: vec![] }.is_empty());
    assert!(!TimeGrid::Regular { t0: num(0.0), dt: num(1.0), n_steps: 0 }.is_empty());
}

#[test]
fn test_executor_creation() {
    let config = BackendConfig::default();
    assert_eq!(config, BackendConfig { backend_type: BackendType::CpuDense, num_threads: None });
    let mut executor = Executor::new(config);
    let empty = executor.execute(&Ieee, &IrProgram::new()).unwrap();
    assert!(empty.experiment_results.is_empty());
}

#[test]
fn test_lowerer_creation() {
    let lowerer = Lowerer::new();
    assert_eq!(lowerer.next_id, 0);
    assert_eq!(lowerer.allocate_id(), 0);
    assert!(lowerer.ir.nodes.is_empty());
}

#[test]
fn ir_program_appends_nodes() {
    let mut program = IrProgram::new();
    let first = program.add_node(IrNode::Scalar { id: 0, value: complex(1.0, 0.0) });
    let second = program.add_node(IrNode::Dagger { id: 1, input: 0 });
    assert_eq!((first, second), (0, 1));
    assert_eq!(program.nodes[1].id(), 1);
    assert_eq!(program.nodes.len(), 2);
}

#[test]
fn test_full_pipeline_simple() {
    // const omega = 1.0; matrix sigma_z = [[1, 0], [0, -1]];
    // Hamiltonian H = (omega/2) * sigma_z; experiment simple { init: ket(vec(1, 0)); }
    let typed = TypeChecker::new().check(Ast::new(simple_program())).expect("Type check failed");
    let mut validator = QuantumValidator::new();
    let _validated = validator.validate(&Ieee, typed).expect("Validation failed");
}

#[test]
fn test_pipeline_rejects_non_hermitian() {
    // matrix non_hermitian = [[1, 2], [0, 1]]; Hamiltonian H = non_hermitian;
    let typed = TypeChecker::new()
        .check(Ast::new(vec![
            Statement::MatrixDecl { name: name("non_hermitian"), value: lit(&[&[1.0, 2.0], &[0.0, 1.0]]) },
            hamiltonian("H", id("non_hermitian")),
        ]))
        .expect("Type check failed");
    let result = QuantumValidator::new().validate(&Ieee, typed);
    assert!(result.is_err());
}

#[test]
fn test_pipeline_dimension_mismatch() {
    // matrix A = [[1, 0]]; matrix B = [[1], [0], [1]]; C = A * B;
    let result = TypeChecker::new().check(Ast::new(vec![
        Statement::MatrixDecl { name: name("A"), value: lit(&[&[1.0, 0.0]]) },
        Statement::MatrixDecl { name: name("B"), value: lit(&[&[1.0], &[0.0], &[1.0]]) },
        hamiltonian("C", Expr::Mul(b(id("A")), b(id("B")))),
    ]));
    assert!(result.is_err());
}

#[test]
fn end_to_end_without_evolution() {
    let program = lower(simple_program()).expect("Lowering failed");
    assert!(is_ordered(&program));
    let result = Executor::new(BackendConfig::default()).execute(&Ieee, &program).expect("Execution failed");
    assert_eq!(result.experiment_results.len(), 1);
    let only = &result.experiment_results[0];
    assert_eq!(only.name, "simple");
    assert_eq!(only.times, vec![num(0.0)]);
    assert_eq!(only.state_type, StateType::DensityMatrix);
    assert!(only.measurements.is_empty());
}

#[test]
fn lowering_of_the_simple_program() {
    let program = lower(simple_program()).unwrap();
    let half = complex(0.5, 0.0);
    let z = vec![complex(1.0, 0.0), complex(0.0, 0.0), complex(0.0, 0.0), complex(-1.0, 0.0)];
    assert_eq!(
        program.nodes,
        vec![
            IrNode::Scalar { id: 0, value: complex(1.0, 0.0) },
            IrNode::LoadMatrix { id: 1, name: name("sigma_z"), data: z, shape: (2, 2) },
            IrNode::Scalar { id: 2, value: half },
            IrNode::MatrixMul { id: 3, left: 2, right: 1 },
            IrNode::LoadVector { id: 4, name: name("init_ket"), data: vec![complex(1.0, 0.0), complex(0.0, 0.0)] },
        ]
    );
    assert_eq!(
        program.experiments,
        vec![IrExperiment { name: name("simple"), initial_state: 4, evolution: None, measurements: vec![] }]
    );
}

#[test]
fn lowering_puts_operands_first() {
    let e = Expr::Add(
        b(Expr::Dagger(b(Expr::Mul(b(id("A")), b(n(2.0)))))),
        b(Expr::Tensor(b(id("A")), b(Expr::Commutator(b(id("A")), b(Expr::Expm(b(Expr::Trace(b(id("A")))))))))),
    );
    let mut lowerer = Lowerer::new();
    lowerer.lower_statement(&Ieee, &Statement::MatrixDecl { name: name("A"), value: lit(&[&[1.0]]) }).unwrap();
    let top = lowerer.lower_expr(&Ieee, &e).unwrap();
    assert_eq!(top, lowerer.ir.nodes.len() - 1);
    assert!(is_ordered(&lowerer.ir));
    assert_eq!(
        lowerer.ir.nodes[1..],
        [
            IrNode::Scalar { id: 1, value: complex(2.0, 0.0) },
            IrNode::MatrixMul { id: 2, left: 0, right: 1 },
            IrNode::Dagger { id: 3, input: 2 },
            IrNode::Trace { id: 4, input: 0 },
            IrNode::MatrixExp { id: 5, input: 4 },
            IrNode::Commutator { id: 6, left: 0, right: 5 },
            IrNode::TensorProduct { id: 7, left: 0, right: 6 },
            IrNode::MatrixAdd { id: 8, left: 3, right: 7 },
        ]
    );
}

#[test]
fn lowering_reports_what_it_cannot_do() {
    let mut lowerer = Lowerer::new();
    assert_eq!(
        lowerer.lower_expr(&Ieee, &id("nowhere")),
        Err(EngineError::Internal(InternalFault::UndefinedIdentifier(name("nowhere"))))
    );
    assert_eq!(
        Lowerer::new().lower_expr(&Ieee, &Expr::Sin(b(n(1.0)))),
        Err(EngineError::Unsupported(UnsupportedFeature::ExpressionLowering))
    );
    assert_eq!(
        Lowerer::new().lower_expr(&Ieee, &Expr::Sub(b(id("A")), b(n(1.0)))),
        Err(EngineError::Unsupported(UnsupportedFeature::ExpressionLowering))
    );
    // arithmetic over constants is evaluated
    let mut folding = Lowerer::new();
    let node = folding.lower_expr(&Ieee, &Expr::Sub(b(n(3.0)), b(n(1.0)))).unwrap();
    assert_eq!(folding.ir.nodes[node], IrNode::Scalar { id: 0, value: complex(2.0, 0.0) });
}

fn evolving(lindblad_ops: Vec<LindbladTerm>, timegrid: TimeGrid, init: StateSpec) -> Vec<Statement> {
    vec![
        Statement::MatrixDecl { name: name("Z"), value: lit(&[&[0.5, 0.0], &[0.0, -0.5]]) },
        Statement::MatrixDecl { name: name("L"), value: lit(&[&[0.0, 1.0], &[0.0, 0.0]]) },
        hamiltonian("H", id("Z")),
        experiment(
            init,
            Some(EvolutionSpec { state_name: name("init"), hamiltonian_name: name("H"), timegrid, lindblad_ops }),
        ),
    ]
}

#[test]
fn lowering_selects_the_evolution_method() {
    let grid = || TimeGrid::Regular { t0: num(0.0), dt: num(0.5), n_steps: 2 };
    let unitary = lower(evolving(vec![], grid(), StateSpec::Ket(ket(&[1.0, 0.0])))).unwrap();
    assert_eq!(
        unitary.experiments[0].evolution,
        Some(IrEvolution {
            method: EvolutionMethod::Schrodinger { hamiltonian: 0 },
            times: vec![num(0.0), num(0.5), num(1.0)],
        })
    );
    let term = LindbladTerm { operator_name: name("L"), rate: b(n(0.1)) };
    let open = lower(evolving(vec![term], grid(), StateSpec::Ket(ket(&[1.0, 0.0])))).unwrap();
    assert_eq!(
        open.experiments[0].evolution.as_ref().unwrap().method,
        EvolutionMethod::Lindblad {
            hamiltonian: 0,
            operators: vec![LindbladOperator { operator: 1, rate: num(0.1) }],
        }
    );
    let rate = LindbladTerm { operator_name: name("L"), rate: b(id("gamma")) };
    assert_eq!(
        lower(evolving(vec![rate], grid(), StateSpec::Ket(ket(&[1.0, 0.0])))).err(),
        Some(EngineError::Unsupported(UnsupportedFeature::NonConstantRate))
    );
    let missing = LindbladTerm { operator_name: name("K"), rate: b(n(0.1)) };
    assert_eq!(
        lower(evolving(vec![missing], grid(), StateSpec::Ket(ket(&[1.0, 0.0])))).err(),
        Some(EngineError::Internal(InternalFault::OperatorNotFound(name("K"))))
    );
}

#[test]
fn lowering_needs_the_hamiltonian_and_an_initial_state() {
    let spec = EvolutionSpec {
        state_name: name("init"),
        hamiltonian_name: name("H"),
        timegrid: TimeGrid::Explicit { times: vec![num(0.0)] },
        lindblad_ops: vec![],
    };
    assert_eq!(
        lower(vec![experiment(StateSpec::Ket(ket(&[1.0, 0.0])), Some(spec))]).err(),
        Some(EngineError::Internal(InternalFault::HamiltonianNotFound(name("H"))))
    );
    let mut lowerer = Lowerer::new();
    let body = ExperimentBody { init: None, evolution: None, measurements: None };
    assert_eq!(
        lowerer.lower_experiment(&Ieee, &name("e"), &body).err(),
        Some(EngineError::ValidationError(ValidationFault::MissingInitialState))
    );
}

fn run(statements: Vec<Statement>) -> Result<ExecutionResult, EngineError> {
    let program = lower(statements)?;
    Executor::new(BackendConfig::default()).execute(&Ieee, &program)
}

#[test]
fn execution_of_unitary_evolution() {
    let grid = TimeGrid::Explicit { times: vec![num(0.0), num(0.5), num(1.5)] };
    let result = run(evolving(vec![], grid, StateSpec::Ket(ket(&[1.0, 0.0])))).unwrap();
    let only = &result.experiment_results[0];
    assert_eq!(only.state_type, StateType::PureState);
    assert_eq!(only.times, vec![num(0.0), num(0.5), num(1.5)]);
    // a density matrix cannot evolve unitarily
    let grid = TimeGrid::Explicit { times: vec![num(0.0), num(0.5)] };
    let rho = StateSpec::Rho(lit(&[&[1.0, 0.0], &[0.0, 0.0]]));
    assert_eq!(
        run(evolving(vec![], grid, rho)).err(),
        Some(EngineError::ExecutionError(ExecutionFault::SchrodingerNeedsKet))
    );
}

#[test]
fn execution_of_open_evolution() {
    let term = || LindbladTerm { operator_name: name("L"), rate: b(n(0.1)) };
    let grid = || TimeGrid::Regular { t0: num(0.0), dt: num(0.1), n_steps: 3 };
    let from_ket = run(evolving(vec![term()], grid(), StateSpec::Ket(ket(&[0.0, 1.0])))).unwrap();
    assert_eq!(from_ket.experiment_results[0].state_type, StateType::PureState);
    assert_eq!(from_ket.experiment_results[0].times.len(), 4);
    let rho = StateSpec::Rho(lit(&[&[0.5, 0.0], &[0.0, 0.5]]));
    let from_rho = run(evolving(vec![term()], grid(), rho)).unwrap();
    assert_eq!(from_rho.experiment_results[0].state_type, StateType::DensityMatrix);
    let backwards = TimeGrid::Explicit { times: vec![num(1.0), num(0.5)] };
    assert_eq!(
        run(evolving(vec![term()], backwards, StateSpec::Ket(ket(&[0.0, 1.0])))).err(),
        Some(EngineError::ValidationError(ValidationFault::TimeGridNotIncreasing))
    );
    let nothing = TimeGrid::Explicit { times: vec![] };
    assert_eq!(
        run(evolving(vec![term()], nothing, StateSpec::Ket(ket(&[0.0, 1.0])))).err(),
        Some(EngineError::ValidationError(ValidationFault::EmptyTimeGrid))
    );
}

fn two_level_program(measurements: Vec<IrMeasurement>, evolution: Option<IrEvolution>) -> IrProgram {
    let flat = |xs: &[f64]| xs.iter().map(|x| complex(*x, 0.0)).collect::<Vec<Complex>>();
    IrProgram {
        nodes: vec![
            IrNode::LoadMatrix { id: 0, name: name("Up"), data: flat(&[1.0, 0.0, 0.0, 0.0]), shape: (2, 2) },
            IrNode::LoadMatrix { id: 1, name: name("Down"), data: flat(&[0.0, 0.0, 0.0, 1.0]), shape: (2, 2) },
            IrNode::LoadMatrix { id: 2, name: name("Z"), data: flat(&[1.0, 0.0, 0.0, -1.0]), shape: (2, 2) },
            IrNode::LoadVector { id: 3, name: name("psi"), data: vec![complex(0.6, 0.0), complex(0.0, 0.8)] },
            IrNode::Scalar { id: 4, value: complex(2.0, 0.0) },
            IrNode::MatrixMul { id: 5, left: 4, right: 2 },
            IrNode::MatrixAdd { id: 6, left: 5, right: 2 },
            IrNode::Trace { id: 7, input: 0 },
            IrNode::Dagger { id: 8, input: 6 },
        ],
        experiments: vec![IrExperiment { name: name("e"), initial_state: 3, evolution, measurements }],
    }
}

#[test]
fn execution_evaluates_measurements() {
    let measurements = vec![
        IrMeasurement { time_index: 0, measurement_type: MeasurementType::Projective { projectors: vec![0, 1] } },
        IrMeasurement { time_index: 0, measurement_type: MeasurementType::POVM { effects: vec![1, 0] } },
        IrMeasurement { time_index: 0, measurement_type: MeasurementType::Observable { operator: 8 } },
    ];
    let program = two_level_program(measurements, None);
    let result = Executor::new(BackendConfig::default()).execute(&Ieee, &program).unwrap();
    let outcomes = &result.experiment_results[0].measurements;
    assert_eq!(outcomes.len(), 3);
    let probs = |k: usize| outcomes[k].probabilities.iter().map(|p| val(*p)).collect::<Vec<f64>>();
    assert!((probs(0)[0] - 0.36).abs() < 1e-12 && (probs(0)[1] - 0.64).abs() < 1e-12);
    assert!((probs(0)[0] + probs(0)[1] - 1.0).abs() < 1e-9);
    assert!((probs(1)[0] - 0.64).abs() < 1e-12 && (probs(1)[1] - 0.36).abs() < 1e-12);
    // the observable is (2 Z + Z)† = 3 Z, its expectation 3 (0.36 - 0.64)
    assert_eq!(probs(2).len(), 1);
    assert!((probs(2)[0] - 3.0 * (0.36 - 0.64)).abs() < 1e-12);
    assert!(outcomes.iter().all(|o| val(o.time) == 0.0));
}

#[test]
fn execution_reports_failures() {
    let run = |program: &IrProgram| Executor::new(BackendConfig::default()).execute(&Ieee, program).err();
    let beyond = vec![IrMeasurement {
        time_index: 1,
        measurement_type: MeasurementType::Projective { projectors: vec![0, 1] },
    }];
    assert_eq!(
        run(&two_level_program(beyond, None)),
        Some(EngineError::ExecutionError(ExecutionFault::TimeIndexOutOfRange { index: 1 }))
    );
    let no_matrix = vec![IrMeasurement { time_index: 0, measurement_type: MeasurementType::Observable { operator: 4 } }];
    assert_eq!(
        run(&two_level_program(no_matrix, None)),
        Some(EngineError::ExecutionError(ExecutionFault::MatrixNotFound { node: 4 }))
    );
    let missing = vec![IrMeasurement { time_index: 0, measurement_type: MeasurementType::Observable { operator: 40 } }];
    assert_eq!(
        run(&two_level_program(missing, None)),
        Some(EngineError::ExecutionError(ExecutionFault::MatrixNotFound { node: 40 }))
    );
    let mut no_state = two_level_program(vec![], None);
    no_state.experiments[0].initial_state = 99;
    assert_eq!(run(&no_state), Some(EngineError::ExecutionError(ExecutionFault::InitialStateNotFound)));
    let mut scalar_state = two_level_program(vec![], None);
    scalar_state.experiments[0].initial_state = 4;
    assert_eq!(run(&scalar_state), Some(EngineError::ExecutionError(ExecutionFault::InitialStateNotFound)));
    let mut short = two_level_program(vec![], None);
    short.nodes[0] = IrNode::LoadMatrix { id: 0, name: name("Up"), data: vec![complex(1.0, 0.0)], shape: (2, 2) };
    assert_eq!(run(&short), Some(EngineError::ExecutionError(ExecutionFault::MatrixLoad { node: 0 })));
    let mut forward = two_level_program(vec![], None);
    forward.nodes[8] = IrNode::Dagger { id: 8, input: 8 };
    forward.experiments[0].initial_state = 8;
    assert_eq!(run(&forward), Some(EngineError::ExecutionError(ExecutionFault::ForwardReference { node: 8 })));
    let mut misplaced = two_level_program(vec![], None);
    misplaced.nodes[8] = IrNode::Dagger { id: 7, input: 6 };
    misplaced.experiments[0].initial_state = 8;
    assert_eq!(run(&misplaced), Some(EngineError::ExecutionError(ExecutionFault::MisplacedNode { node: 8 })));
    let mut mismatch = two_level_program(vec![], None);
    mismatch.nodes[8] = IrNode::Trace { id: 8, input: 3 };
    mismatch.experiments[0].initial_state = 8;
    assert_eq!(run(&mismatch), Some(EngineError::ExecutionError(ExecutionFault::KindMismatch { node: 8 })));
    let mut shapes = two_level_program(vec![], None);
    shapes.nodes[8] = IrNode::MatrixMul { id: 8, left: 0, right: 3 };
    shapes.nodes.push(IrNode::MatrixAdd { id: 9, left: 8, right: 8 });
    shapes.experiments[0].initial_state = 9;
    assert_eq!(run(&shapes), Some(EngineError::ExecutionError(ExecutionFault::KindMismatch { node: 9 })));
}

#[test]
fn execution_through_nodes_of_every_kind() {
    let flat = |xs: &[f64]| xs.iter().map(|x| complex(*x, 0.0)).collect::<Vec<Complex>>();
    let mut program = IrProgram::new();
    let mut push = |node: IrNode| program.add_node(node);
    let x = push(IrNode::LoadMatrix { id: 0, name: name("X"), data: flat(&[0.0, 1.0, 1.0, 0.0]), shape: (2, 2) });
    let z = push(IrNode::LoadMatrix { id: 1, name: name("Z"), data: flat(&[1.0, 0.0, 0.0, -1.0]), shape: (2, 2) });
    let psi = push(IrNode::LoadVector { id: 2, name: name("psi"), data: flat(&[1.0, 0.0]) });
    let two = push(IrNode::Scalar { id: 3, value: complex(2.0, 0.0) });
    let scaled = push(IrNode::ScalarMul { id: 4, scalar: two, matrix: z });
    let comm = push(IrNode::Commutator { id: 5, left: x, right: z });
    let tensor = push(IrNode::TensorProduct { id: 6, left: x, right: scaled });
    let exp = push(IrNode::MatrixExp { id: 7, input: z });
    let u = push(IrNode::UnitaryPropagator { id: 8, hamiltonian: z, time: num(0.5) });
    let moved = push(IrNode::ApplyUnitaryKet { id: 9, unitary: x, ket: psi });
    let rho = push(IrNode::LoadMatrix { id: 10, name: name("rho"), data: flat(&[1.0, 0.0, 0.0, 0.0]), shape: (2, 2) });
    let flipped = push(IrNode::ApplyUnitaryRho { id: 11, unitary: x, rho });
    let decayed = push(IrNode::IntegrateLindblad {
        id: 12,
        hamiltonian: z,
        initial_rho: flipped,
        lindblad_ops: vec![LindbladOperator { operator: x, rate: num(0.0) }],
        times: vec![num(0.0), num(0.1)],
    });
    let mean = push(IrNode::MeasureExpectation { id: 13, observable: z, state: flipped });
    let probs = push(IrNode::MeasureProjective { id: 14, projectors: vec![rho, flipped], state: decayed });
    let _ = (comm, tensor, exp, u, mean, probs);
    program.experiments.push(IrExperiment {
        name: name("moved"),
        initial_state: moved,
        evolution: None,
        measurements: vec![
            IrMeasurement { time_index: 0, measurement_type: MeasurementType::Projective { projectors: vec![rho, flipped] } },
            IrMeasurement { time_index: 0, measurement_type: MeasurementType::Observable { operator: exp } },
            IrMeasurement { time_index: 0, measurement_type: MeasurementType::Observable { operator: comm } },
        ],
    });
    program.experiments.push(IrExperiment {
        name: name("decayed"),
        initial_state: decayed,
        evolution: None,
        measurements: vec![IrMeasurement {
            time_index: 0,
            measurement_type: MeasurementType::Observable { operator: scaled },
        }],
    });
    let mut executor = Executor::new(BackendConfig::default());
    let result = executor.execute(&Ieee, &program).unwrap();
    let first = &result.experiment_results[0].measurements;
    // X|0> = |1>
    assert_eq!(first[0].probabilities.iter().map(|p| val(*p)).collect::<Vec<f64>>(), vec![0.0, 1.0]);
    assert!((val(first[1].probabilities[0]) - (-1f64).exp()).abs() < 1e-12);
    assert_eq!(val(first[2].probabilities[0]), 0.0);
    // the state |1><1| does not move under Z with rate 0; 2 Z has expectation -2
    let second = &result.experiment_results[1].measurements;
    assert!((val(second[0].probabilities[0]) + 2.0).abs() < 1e-9);
    // a second run gives the same result
    assert_eq!(executor.execute(&Ieee, &program).unwrap(), result);
    let tensor_dims = Shape::Matrix(4, 4);
    assert_eq!(tensor_dims, Shape::Matrix(2 * 2, 2 * 2));
}

#[test]
fn evaluation_beyond_the_graph_is_reported() {
    let program = two_level_program(vec![], None);
    let mut executor = Executor::new(BackendConfig::default());
    let beyond = program.nodes.len();
    assert_eq!(
        executor.evaluate(&Ieee, &program.nodes, beyond),
        Err(EngineError::ExecutionError(ExecutionFault::NodeNotFound { node: beyond }))
    );
}

#[test]
fn lowering_rejects_a_grid_too_long_to_count() {
    let grid = TimeGrid::Regular { t0: num(0.0), dt: num(0.5), n_steps: usize::MAX };
    assert_eq!(
        lower(evolving(vec![], grid, StateSpec::Ket(ket(&[1.0, 0.0])))).err(),
        Some(EngineError::Internal(InternalFault::CounterOverflow))
    );
}

#[test]
fn lowering_that_fails_appends_only_what_came_before() {
    let mut lowerer = Lowerer::new();
    // a name without a node: nothing is appended and no id is used up
    assert_eq!(
        lowerer.lower_expr(&Ieee, &id("X")).err(),
        Some(EngineError::Internal(InternalFault::UndefinedIdentifier(name("X"))))
    );
    assert!(lowerer.ir.nodes.is_empty());
    assert_eq!(lowerer.allocate_id(), 0);
    // an operation whose right operand fails: the left operand stays lowered
    let sum = Expr::Add(b(n(1.0)), b(id("X")));
    assert_eq!(
        lowerer.lower_expr(&Ieee, &sum).err(),
        Some(EngineError::Internal(InternalFault::UndefinedIdentifier(name("X"))))
    );
    assert_eq!(lowerer.ir.nodes, vec![IrNode::Scalar { id: 0, value: complex(1.0, 0.0) }]);
    assert_eq!(lowerer.allocate_id(), 1);
    // one whose left operand fails: nothing more is appended
    let other = Expr::Add(b(id("X")), b(n(1.0)));
    assert!(lowerer.lower_expr(&Ieee, &other).is_err());
    assert_eq!(lowerer.ir.nodes.len(), 1);
}
