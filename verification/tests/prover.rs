use num_complex::Complex64;
use quantum_theory_engine::arith::Arithmetic;
use quantum_theory_engine::ast::Expr;
use quantum_theory_engine::matrix::Matrix;
use quantum_theory_engine::ast::{MatrixLiteral, VectorLiteral};
use quantum_theory_engine::optimizer::Optimizer;
use quantum_theory_engine::prover::{
    copy_expr, expr_equal, is_identity, is_zero, Assumption, MatrixValue, Proof, ProofResult,
    ProofStep, Property, PropertyResult, Prover, ProverConfig, Reason, RewriteRule,
    RewriteSystem, Statement,
};
use quantum_theory_engine::scalar::{Complex, Real};

fn num(x: f64) -> Real {
    Real { bits: x.to_bits() }
}

fn val(r: Real) -> f64 {
    f64::from_bits(r.bits)
}

fn complex(re: f64, im: f64) -> Complex {
    Complex { re: num(re), im: num(im) }
}

fn c64(z: Complex) -> Complex64 {
    Complex64::new(val(z.re), val(z.im))
}

fn bits(z: Complex64) -> Complex {
    complex(z.re, z.im)
}

/// Binary64 arithmetic, with the complex operations of `num_complex`.
struct Ieee;

impl Arithmetic for Ieee {
    fn add_real(&self, a: Real, b: Real) -> Real {
        num(val(a) + val(b))
    }

    fn sub_real(&self, a: Real, b: Real) -> Real {
        num(val(a) - val(b))
    }

    fn mul_real(&self, a: Real, b: Real) -> Real {
        num(val(a) * val(b))
    }

    fn div_real(&self, a: Real, b: Real) -> Real {
        num(val(a) / val(b))
    }

    fn exp_real(&self, a: Real) -> Real {
        num(val(a).exp())
    }

    fn ln_real(&self, a: Real) -> Real {
        num(val(a).ln())
    }

    fn sqrt_real(&self, a: Real) -> Real {
        num(val(a).sqrt())
    }

    fn count_from_real(&self, a: Real) -> usize {
        val(a) as usize
    }

    fn real_from_count(&self, n: usize) -> Real {
        num(n as f64)
    }

    fn add_complex(&self, a: Complex, b: Complex) -> Complex {
        bits(c64(a) + c64(b))
    }

    fn sub_complex(&self, a: Complex, b: Complex) -> Complex {
        bits(c64(a) - c64(b))
    }

    fn mul_complex(&self, a: Complex, b: Complex) -> Complex {
        bits(c64(a) * c64(b))
    }

    fn div_complex(&self, a: Complex, b: Complex) -> Complex {
        bits(c64(a) / c64(b))
    }

    fn norm(&self, a: Complex) -> Real {
        num(c64(a).norm())
    }

    fn norm_sqr(&self, a: Complex) -> Real {
        num(c64(a).norm_sqr())
    }

    fn eigh(&self, rows: &Vec<Vec<Complex>>) -> Option<(Vec<Real>, Vec<Vec<Complex>>)> {
        jacobi(rows)
    }
}

/// Eigenvalues and eigenvectors of a Hermitian matrix by cyclic Jacobi
/// rotations; the eigenvectors are the columns of the second component.
fn jacobi(rows: &Vec<Vec<Complex>>) -> Option<(Vec<Real>, Vec<Vec<Complex>>)> {
    let n = rows.len();
    let mut a: Vec<Vec<Complex64>> = rows.iter().map(|r| r.iter().map(|z| c64(*z)).collect()).collect();
    if a.iter().any(|r| r.len() != n) {
        return None;
    }
    let mut v: Vec<Vec<Complex64>> = (0..n)
        .map(|i| (0..n).map(|j| if i == j { Complex64::new(1.0, 0.0) } else { Complex64::new(0.0, 0.0) }).collect())
        .collect();
    for _sweep in 0..100 {
        let mut off = 0.0;
        for p in 0..n {
            for q in 0..n {
                if p != q {
                    off += a[p][q].norm_sqr();
                }
            }
        }
        if off < 1e-30 {
            break;
        }
        for p in 0..n {
            for q in (p + 1)..n {
                let apq = a[p][q];
                if apq.norm() < 1e-300 {
                    continue;
                }
                let phase = apq / apq.norm();
                let app = a[p][p].re;
                let aqq = a[q][q].re;
                let theta = 0.5 * (2.0 * apq.norm()).atan2(app - aqq);
                let c = theta.cos();
                let s = theta.sin();
                // columns p and q of the rotation
                let upp = Complex64::new(c, 0.0);
                let upq = -phase * s;
                let uqp = phase.conj() * s;
                let uqq = Complex64::new(c, 0.0);
                // a <- a u
                for k in 0..n {
                    let akp = a[k][p];
                    let akq = a[k][q];
                    a[k][p] = akp * upp + akq * uqp;
                    a[k][q] = akp * upq + akq * uqq;
                }
                // a <- u† a
                for k in 0..n {
                    let apk = a[p][k];
                    let aqk = a[q][k];
                    a[p][k] = upp.conj() * apk + uqp.conj() * aqk;
                    a[q][k] = upq.conj() * apk + uqq.conj() * aqk;
                }
                for k in 0..n {
                    let vkp = v[k][p];
                    let vkq = v[k][q];
                    v[k][p] = vkp * upp + vkq * uqp;
                    v[k][q] = vkp * upq + vkq * uqq;
                }
            }
        }
    }
    let values = (0..n).map(|i| num(a[i][i].re)).collect();
    let vectors = v.iter().map(|r| r.iter().map(|z| bits(*z)).collect()).collect();
    Some((values, vectors))
}

fn matrix(rows: &[&[(f64, f64)]]) -> Matrix {
    let data: Vec<Vec<Complex>> =
        rows.iter().map(|r| r.iter().map(|&(re, im)| complex(re, im)).collect()).collect();
    Matrix::from_rows(data).unwrap()
}

fn at(m: &Matrix, i: usize, j: usize) -> Complex64 {
    c64(m.data[i][j])
}

fn name(s: &str) -> Expr {
    Expr::Identifier(s.to_string())
}

#[test]
fn test_rewrite_dagger_dagger() {
    let twice = Expr::Dagger(Box::new(Expr::Dagger(Box::new(name("A")))));
    let r = RewriteRule::DaggerDagger.apply(&Ieee, &twice);
    assert_eq!(r, Some(name("A")));
    let once = Expr::Dagger(Box::new(name("A")));
    assert_eq!(RewriteRule::DaggerDagger.apply(&Ieee, &once), None);
    assert_eq!(RewriteRule::DaggerDagger.apply(&Ieee, &name("A")), None);
}

#[test]
fn test_commutator_self() {
    let same = Expr::Commutator(Box::new(name("A")), Box::new(name("A")));
    let r = RewriteRule::CommutatorSelf.apply(&Ieee, &same);
    assert_eq!(r, Some(Expr::Number(num(0.0))));
    let other = Expr::Commutator(Box::new(name("A")), Box::new(name("B")));
    assert_eq!(RewriteRule::CommutatorSelf.apply(&Ieee, &other), None);
    assert!(expr_equal(&same, &same));
    assert!(!expr_equal(&same, &other));
}

fn b(e: Expr) -> Box<Expr> {
    Box::new(e)
}

fn zero() -> Expr {
    Expr::Number(num(0.0))
}

#[test]
fn test_proof_caching() {
    let mut prover = Prover::new(ProverConfig::default());
    let lhs = Expr::Commutator(b(name("A")), b(name("A")));
    let first = prover.prove_identity(&Ieee, &lhs, &zero());
    assert_eq!(prover.cached(), 1);
    let second = prover.prove_identity(&Ieee, &lhs, &zero());
    assert_eq!(prover.cached(), 1);
    match (&first, &second) {
        (ProofResult::Proven(p), ProofResult::Proven(q)) => {
            assert_eq!(p.steps, q.steps);
            assert_eq!(p.statement, q.statement);
            assert_eq!(p.certificate.hash, q.certificate.hash);
        }
        other => panic!("unexpected {:?}", other),
    }
    // another identity gets an entry of its own
    let other = Expr::Commutator(b(name("B")), b(name("B")));
    assert!(matches!(prover.prove_identity(&Ieee, &other, &zero()), ProofResult::Proven(_)));
    assert_eq!(prover.cached(), 2);
}

#[test]
fn test_optimizer_creation() {
    let opt = Optimizer::new();
    assert!(opt.constant_cache.entries.is_empty());
}

#[test]
fn test_simplify_zero_multiplication() {
    let opt = Optimizer::new();
    let expr = Expr::Mul(Box::new(Expr::Number(num(0.0))), Box::new(Expr::Identifier("x".to_string())));
    let simplified = opt.simplify_expr(&expr);
    assert!(matches!(simplified, Expr::Number(x) if val(x) == 0.0));
}

#[test]
fn simplification_at_the_root() {
    let opt = Optimizer::new();
    let x = || name("x");
    assert_eq!(opt.simplify_expr(&Expr::Mul(b(x()), b(Expr::Number(num(-0.0))))), zero());
    assert_eq!(opt.simplify_expr(&Expr::Mul(b(x()), b(x()))), Expr::Mul(b(x()), b(x())));
    assert_eq!(opt.simplify_expr(&Expr::Add(b(zero()), b(x()))), x());
    assert_eq!(opt.simplify_expr(&Expr::Add(b(x()), b(zero()))), x());
    let nested = Expr::Add(b(zero()), b(Expr::Dagger(b(Expr::Dagger(b(x()))))));
    assert_eq!(opt.simplify_expr(&nested), x());
    assert_eq!(opt.simplify_expr(&Expr::Dagger(b(x()))), Expr::Dagger(b(x())));
    // only the root is looked at
    let inner = Expr::Sub(b(Expr::Mul(b(zero()), b(x()))), b(x()));
    assert_eq!(opt.simplify_expr(&inner), inner);
}

#[test]
fn optimizer_collects_constants() {
    let mut opt = Optimizer::new();
    let ast = quantum_theory_engine::ast::Ast::new(vec![
        quantum_theory_engine::ast::Statement::ConstDecl { name: "a".to_string(), value: num(1.0) },
        quantum_theory_engine::ast::Statement::SymbolDecl { name: "s".to_string() },
        quantum_theory_engine::ast::Statement::ConstDecl { name: "b".to_string(), value: num(2.0) },
        quantum_theory_engine::ast::Statement::ConstDecl { name: "a".to_string(), value: num(3.0) },
    ]);
    let out = opt.optimize(ast).unwrap();
    assert_eq!(out.statements.len(), 4);
    assert_eq!(opt.constant_cache.get(&"a".to_string()), Some(&num(3.0)));
    assert_eq!(opt.constant_cache.get(&"b".to_string()), Some(&num(2.0)));
    assert_eq!(opt.constant_cache.get(&"s".to_string()), None);
    assert!(opt.detect_sparsity(&out).entries.is_empty());
}

#[test]
fn rules_and_their_descriptions() {
    assert_eq!(RewriteRule::all_rules().len(), 9);
    assert_eq!(RewriteRule::all_rules()[0], RewriteRule::DaggerDagger);
    assert_eq!(RewriteRule::all_rules()[8], RewriteRule::PauliSquare);
    assert_eq!(
        RewriteRule::canonical_rules(),
        vec![
            RewriteRule::AddZero,
            RewriteRule::MultiplyZero,
            RewriteRule::MultiplyIdentity,
            RewriteRule::DaggerDagger
        ]
    );
    assert_eq!(RewriteRule::DaggerDagger.description(), "(A†)† = A");
    assert_eq!(RewriteRule::CommutatorSelf.description(), "[A, A] = 0");
    assert_eq!(RewriteRule::CommutatorAnti.description(), "[A, B] = -[B, A]");
    assert_eq!(RewriteRule::JacobiIdentity.description(), "JacobiIdentity");
    assert_eq!(RewriteRule::PauliSquare.description(), "PauliSquare");
    let system = RewriteSystem::default();
    assert_eq!(system.rules, RewriteRule::all_rules());
    assert_eq!(system.canonical_rules, RewriteRule::canonical_rules());
    let config = ProverConfig::default();
    assert_eq!((config.max_steps, config.max_depth, config.timeout), (1000, 20, 5000));
    assert_eq!((config.enable_smt, config.counterexample_samples), (false, 100));
}

#[test]
fn rules_apply_at_the_root() {
    let a = || name("A");
    let bb = || name("B");
    assert_eq!(RewriteRule::MultiplyZero.apply(&Ieee, &Expr::Mul(b(zero()), b(a()))), Some(zero()));
    assert_eq!(RewriteRule::MultiplyZero.apply(&Ieee, &Expr::Mul(b(a()), b(Expr::Number(num(1e-16))))), Some(zero()));
    assert_eq!(RewriteRule::MultiplyZero.apply(&Ieee, &Expr::Mul(b(a()), b(Expr::Number(num(1e-14))))), None);
    let tiny = Expr::ComplexNumber(complex(6e-16, 6e-16));
    assert_eq!(RewriteRule::MultiplyZero.apply(&Ieee, &Expr::Mul(b(tiny), b(a()))), Some(zero()));
    let small = Expr::ComplexNumber(complex(8e-16, 8e-16));
    assert_eq!(RewriteRule::MultiplyZero.apply(&Ieee, &Expr::Mul(b(small), b(a()))), None);
    assert_eq!(RewriteRule::AddZero.apply(&Ieee, &Expr::Add(b(a()), b(zero()))), Some(a()));
    assert_eq!(RewriteRule::AddZero.apply(&Ieee, &Expr::Add(b(zero()), b(bb()))), Some(bb()));
    assert_eq!(RewriteRule::AddZero.apply(&Ieee, &Expr::Add(b(a()), b(bb()))), None);
    assert_eq!(RewriteRule::MultiplyIdentity.apply(&Ieee, &Expr::Mul(b(name("I")), b(a()))), Some(a()));
    assert_eq!(RewriteRule::MultiplyIdentity.apply(&Ieee, &Expr::Mul(b(a()), b(name("identity")))), Some(a()));
    assert_eq!(RewriteRule::MultiplyIdentity.apply(&Ieee, &Expr::Mul(b(a()), b(bb()))), None);
    assert_eq!(
        RewriteRule::CommutatorAnti.apply(&Ieee, &Expr::Commutator(b(a()), b(bb()))),
        Some(Expr::Mul(b(Expr::Number(num(-1.0))), b(Expr::Commutator(b(bb()), b(a())))))
    );
    for rule in [RewriteRule::DaggerSum, RewriteRule::PauliSquare, RewriteRule::TraceCyclic] {
        assert_eq!(rule.apply(&Ieee, &Expr::Commutator(b(a()), b(a()))), None);
    }
    assert!(is_identity(&name("I")) && is_identity(&name("identity")) && !is_identity(&a()));
    assert!(is_zero(&Ieee, &zero()) && !is_zero(&Ieee, &a()));
}

#[test]
fn terms_are_compared_by_structure() {
    let m = |x: f64| Expr::Matrix(MatrixLiteral { rows: vec![vec![Expr::Number(num(x)), name("a")]] });
    let v = |x: f64| Expr::Vector(VectorLiteral { elements: vec![Expr::Number(num(x))] });
    let f = |n: &str| Expr::FuncCall { name: n.to_string(), args: vec![m(1.0), v(2.0)] };
    assert!(expr_equal(&m(1.0), &m(1.0)) && !expr_equal(&m(1.0), &m(2.0)));
    assert!(expr_equal(&v(1.0), &v(1.0)) && !expr_equal(&v(1.0), &m(1.0)));
    assert!(expr_equal(&f("g"), &f("g")) && !expr_equal(&f("g"), &f("h")));
    assert!(!expr_equal(&Expr::Number(num(0.0)), &Expr::Number(num(-0.0))));
    let deep = Expr::Pow(b(Expr::Sin(b(f("g")))), b(Expr::Trace(b(m(3.0)))));
    assert_eq!(copy_expr(&deep), deep);
    assert!(expr_equal(&copy_expr(&deep), &deep));
}

#[test]
fn canonical_form_is_a_fixpoint() {
    let prover = Prover::new(ProverConfig::default());
    let a = || name("A");
    // ((A†)† + 0) * I  ->  (A†)† + 0  ->  (A†)†  ->  A
    let e = Expr::Mul(b(Expr::Add(b(Expr::Dagger(b(Expr::Dagger(b(a()))))), b(zero()))), b(name("I")));
    assert_eq!(prover.canonicalize(&Ieee, &e), a());
    assert_eq!(prover.canonicalize(&Ieee, &a()), a());
    // only the root is rewritten
    let inner = Expr::Trace(b(Expr::Add(b(a()), b(zero()))));
    assert_eq!(prover.canonicalize(&Ieee, &inner), inner);
}

#[test]
fn identities_by_canonical_form_and_by_search() {
    let mut prover = Prover::new(ProverConfig::default());
    let a = || name("A");
    let trivial = prover.prove_identity(&Ieee, &Expr::Add(b(a()), b(zero())), &a());
    match &trivial {
        ProofResult::Proven(p) => {
            assert_eq!(p.steps.len(), 1);
            assert_eq!(p.steps[0].rule, RewriteRule::Canonicalize);
            assert_eq!(p.steps[0].before, Expr::Add(b(a()), b(zero())));
            assert_eq!(p.steps[0].after, a());
            assert_eq!(p.steps[0].justification, "Canonical form");
        }
        other => panic!("unexpected {:?}", other),
    }
    assert_eq!(prover.cached(), 0);
    let found = prover.prove_identity(&Ieee, &Expr::Commutator(b(a()), b(a())), &zero());
    match &found {
        ProofResult::Proven(p) => {
            assert_eq!(p.steps.len(), 1);
            assert_eq!(p.steps[0].rule, RewriteRule::CommutatorSelf);
            assert_eq!(p.steps[0].after, zero());
            assert_eq!(p.steps[0].justification, "[A, A] = 0");
            assert!(prover.verify_proof(&Ieee, p));
        }
        other => panic!("unexpected {:?}", other),
    }
    let unknown = prover.prove_identity(&Ieee, &a(), &name("B"));
    assert_eq!(unknown, ProofResult::Unknown(Reason::Exhausted));
    assert_eq!(prover.find_counterexample(&a(), &name("B")), None);
}

#[test]
fn certificate_holds_the_digest_of_the_assumptions() {
    let prover = Prover::new(ProverConfig::default());
    let none = prover.generate_certificate(&vec![]);
    assert_eq!(none.hash, "4f53cda18c2baa0c0354bb5f9a3ecbe5ed12ab4d8e11ba873c2f11161202b945");
    assert_eq!(none.engine_version, quantum_theory_engine::VERSION);
    assert!(none.timestamp > 1_600_000_000_000);
    let two = prover.generate_certificate(&vec![
        Assumption { description: "a".to_string() },
        Assumption { description: "b".to_string() },
    ]);
    assert_eq!(two.hash, "5af6c271183b04678181b5b356d79db40f07010a7a62241565456edb90d1c34e");
    assert_eq!(two.assumptions.len(), 2);
}

#[test]
fn proofs_are_checked_step_by_step() {
    let prover = Prover::new(ProverConfig::default());
    let a = || name("A");
    let twice = || Expr::Dagger(b(Expr::Dagger(b(a()))));
    let step = |before: Expr, after: Expr, rule: RewriteRule| ProofStep {
        rule,
        before,
        after,
        justification: rule.description(),
    };
    let proof = |lhs: Expr, rhs: Expr, steps: Vec<ProofStep>| Proof {
        statement: Statement::Identity { lhs, rhs },
        steps,
        assumptions_used: vec![],
        certificate: prover.generate_certificate(&vec![]),
    };
    let chain = vec![
        step(Expr::Add(b(twice()), b(zero())), twice(), RewriteRule::AddZero),
        step(twice(), a(), RewriteRule::DaggerDagger),
    ];
    assert!(prover.verify_proof(&Ieee, &proof(Expr::Add(b(twice()), b(zero())), a(), chain)));
    let wrong_end = vec![step(twice(), a(), RewriteRule::DaggerDagger)];
    assert!(!prover.verify_proof(&Ieee, &proof(twice(), name("B"), wrong_end)));
    let wrong_start = vec![step(twice(), a(), RewriteRule::DaggerDagger)];
    assert!(!prover.verify_proof(&Ieee, &proof(a(), a(), wrong_start)));
    let wrong_rule = vec![step(twice(), a(), RewriteRule::AddZero)];
    assert!(!prover.verify_proof(&Ieee, &proof(twice(), a(), wrong_rule)));
    let broken_link = vec![
        step(Expr::Add(b(twice()), b(zero())), twice(), RewriteRule::AddZero),
        step(Expr::Dagger(b(twice())), Expr::Dagger(b(a())), RewriteRule::DaggerDagger),
    ];
    assert!(!prover.verify_proof(&Ieee, &proof(Expr::Add(b(twice()), b(zero())), a(), broken_link)));
    assert!(prover.verify_proof(&Ieee, &proof(a(), name("B"), vec![])));
    assert!(prover.verify_rule_application(&Ieee, &RewriteRule::DaggerDagger, &twice(), &a()));
}

#[test]
fn hermiticity_cannot_be_decided() {
    let mut prover = Prover::new(ProverConfig::default());
    prover.add_assumption(Assumption { description: "omega > 0".to_string() });
    let r = prover.prove_property(Property::Hermitian(name("H")));
    assert_eq!(r.property, Property::Hermitian(name("H")));
    assert_eq!(r.result, PropertyResult::Failed(Reason::CannotEvaluate));
    assert_eq!(r.certificate, None);
    assert_eq!(prover.symbolic_hermitian_proof(&name("H")), None);
}

#[test]
fn matrix_value_holds_parts() {
    let m = matrix(&[&[(1.0, 2.0), (3.0, 4.0), (5.0, 6.0)]]);
    let v = MatrixValue::from_array(&m);
    assert_eq!((v.rows, v.cols), (1, 3));
    assert_eq!(v.elements, vec![vec![(num(1.0), num(2.0)), (num(3.0), num(4.0)), (num(5.0), num(6.0))]]);
}

#[test]
fn test_proof_system() {
    let mut prover = Prover::new(ProverConfig::default());
    // [σ_x, σ_x] = 0
    let lhs = Expr::Commutator(b(name("sigma_x")), b(name("sigma_x")));
    assert!(matches!(prover.prove_identity(&Ieee, &lhs, &zero()), ProofResult::Proven(_)));
}

#[test]
fn search_expands_round_by_round() {
    let prover = Prover::new(ProverConfig::default());
    let a = || name("A");
    // a frontier of one term: every rule is tried at its root, and new terms are recorded
    let twice = Expr::Dagger(b(Expr::Dagger(b(a()))));
    let frontier = vec![(copy_expr(&twice), Vec::new())];
    let mut visited = vec![copy_expr(&twice)];
    let found = prover.expand_frontier(&Ieee, &frontier, &mut visited);
    assert_eq!(found.len(), 1);
    assert_eq!(found[0].0, a());
    assert_eq!(found[0].1.len(), 1);
    assert_eq!(found[0].1[0].rule, RewriteRule::DaggerDagger);
    assert_eq!(found[0].1[0].before, twice);
    assert_eq!(found[0].1[0].after, a());
    assert_eq!(visited, vec![copy_expr(&twice), a()]);
    // a term that was seen does not enter the new frontier
    let again = prover.expand_frontier(&Ieee, &frontier, &mut visited);
    assert!(again.is_empty());
    assert_eq!(visited.len(), 2);
    // the steps of a term are carried on
    let commutator = Expr::Commutator(b(a()), b(a()));
    let next = vec![(copy_expr(&commutator), found[0].1.iter().map(|s| s.duplicate()).collect())];
    let mut seen = Vec::new();
    let grown = prover.expand_frontier(&Ieee, &next, &mut seen);
    // two rules apply to [A, A], in the order of the rules
    assert_eq!(grown.len(), 2);
    assert_eq!(grown[0].0, zero());
    assert_eq!(
        grown[0].1.iter().map(|s| s.rule).collect::<Vec<RewriteRule>>(),
        vec![RewriteRule::DaggerDagger, RewriteRule::CommutatorSelf]
    );
    assert_eq!(grown[1].1[1].rule, RewriteRule::CommutatorAnti);
    assert_eq!(seen.len(), 2);
    assert!(prover.expand_frontier(&Ieee, &vec![], &mut seen).is_empty());
}

#[test]
fn search_ends_by_depth_or_by_a_meeting() {
    let a = || name("A");
    let twice = Expr::Dagger(b(Expr::Dagger(b(a()))));
    // without rounds nothing is found
    let mut shallow = ProverConfig::default();
    shallow.max_depth = 0;
    let none = Prover::new(shallow).bidirectional_search(&Ieee, &twice, &a());
    assert_eq!(none, ProofResult::Unknown(Reason::Exhausted));
    // one round: the left side reaches A, which the right side has seen
    let mut one = ProverConfig::default();
    one.max_depth = 1;
    match Prover::new(one).bidirectional_search(&Ieee, &twice, &a()) {
        ProofResult::Proven(p) => {
            assert_eq!(p.steps.len(), 1);
            assert_eq!(p.steps[0].rule, RewriteRule::DaggerDagger);
            assert_eq!(p.statement, Statement::Identity { lhs: copy_expr(&twice), rhs: a() });
        }
        other => panic!("unexpected {:?}", other),
    }
    // the right side reaches A, which the left side has seen
    match Prover::new(one).bidirectional_search(&Ieee, &a(), &twice) {
        ProofResult::Proven(p) => {
            assert_eq!(p.steps.len(), 1);
            assert_eq!(p.steps[0].before, twice);
        }
        other => panic!("unexpected {:?}", other),
    }
    // nothing applies to a name: both frontiers run empty in the first round
    assert_eq!(
        Prover::new(ProverConfig::default()).bidirectional_search(&Ieee, &a(), &name("B")),
        ProofResult::Unknown(Reason::Exhausted)
    );
}
