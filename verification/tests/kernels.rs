use num_complex::Complex64;
use quantum_theory_engine::arith::{total, Arithmetic};
use quantum_theory_engine::error::{EngineError, ExecutionFault, ValidationFault};
use quantum_theory_engine::kernels::{
    apply_unitary_ket, apply_unitary_rho, commutator, dagger, expectation, ket_to_rho,
    matrix_exp, measure_projective, tensor_product, trace,
};
use quantum_theory_engine::matrix::Matrix;
use quantum_theory_engine::scalar::{Complex, Real};
use quantum_theory_engine::ode::evolve_unitary;
use quantum_theory_engine::typechecker::Shape;
use quantum_theory_engine::validator::check_psd;

fn num(x: f64) -> Real {
    Real { bits: x.to_bits() }
}

fn val(r: Real) -> f64 {
    f64::from_bits(r.bits)
}

fn complex(re: f64, im: f64) -> Complex {
    Complex { re: num(re), im: num(im) }
}

fn c64(z: Complex) -> Complex64 {
    Complex64::new(val(z.re), val(z.im))
}

fn bits(z: Complex64) -> Complex {
    complex(z.re, z.im)
}

/// Binary64 arithmetic, with the complex operations of `num_complex`.
struct Ieee;

impl Arithmetic for Ieee {
    fn add_real(&self, a: Real, b: Real) -> Real {
        num(val(a) + val(b))
    }

    fn sub_real(&self, a: Real, b: Real) -> Real {
        num(val(a) - val(b))
    }

    fn mul_real(&self, a: Real, b: Real) -> Real {
        num(val(a) * val(b))
    }

    fn div_real(&self, a: Real, b: Real) -> Real {
        num(val(a) / val(b))
    }

    fn exp_real(&self, a: Real) -> Real {
        num(val(a).exp())
    }

    fn ln_real(&self, a: Real) -> Real {
        num(val(a).ln())
    }

    fn sqrt_real(&self, a: Real) -> Real {
        num(val(a).sqrt())
    }

    fn count_from_real(&self, a: Real) -> usize {
        val(a) as usize
    }

    fn real_from_count(&self, n: usize) -> Real {
        num(n as f64)
    }

    fn add_complex(&self, a: Complex, b: Complex) -> Complex {
        bits(c64(a) + c64(b))
    }

    fn sub_complex(&self, a: Complex, b: Complex) -> Complex {
        bits(c64(a) - c64(b))
    }

    fn mul_complex(&self, a: Complex, b: Complex) -> Complex {
        bits(c64(a) * c64(b))
    }

    fn div_complex(&self, a: Complex, b: Complex) -> Complex {
        bits(c64(a) / c64(b))
    }

    fn norm(&self, a: Complex) -> Real {
        num(c64(a).norm())
    }

    fn norm_sqr(&self, a: Complex) -> Real {
        num(c64(a).norm_sqr())
    }

    fn eigh(&self, rows: &Vec<Vec<Complex>>) -> Option<(Vec<Real>, Vec<Vec<Complex>>)> {
        jacobi(rows)
    }
}

/// Eigenvalues and eigenvectors of a Hermitian matrix by cyclic Jacobi
/// rotations; the eigenvectors are the columns of the second component.
fn jacobi(rows: &Vec<Vec<Complex>>) -> Option<(Vec<Real>, Vec<Vec<Complex>>)> {
    let n = rows.len();
    let mut a: Vec<Vec<Complex64>> = rows.iter().map(|r| r.iter().map(|z| c64(*z)).collect()).collect();
    if a.iter().any(|r| r.len() != n) {
        return None;
    }
    let mut v: Vec<Vec<Complex64>> = (0..n)
        .map(|i| (0..n).map(|j| if i == j { Complex64::new(1.0, 0.0) } else { Complex64::new(0.0, 0.0) }).collect())
        .collect();
    for _sweep in 0..100 {
        let mut off = 0.0;
        for p in 0..n {
            for q in 0..n {
                if p != q {
                    off += a[p][q].norm_sqr();
                }
            }
        }
        if off < 1e-30 {
            break;
        }
        for p in 0..n {
            for q in (p + 1)..n {
                let apq = a[p][q];
                if apq.norm() < 1e-300 {
                    continue;
                }
                let phase = apq / apq.norm();
                let app = a[p][p].re;
                let aqq = a[q][q].re;
                let theta = 0.5 * (2.0 * apq.norm()).atan2(app - aqq);
                let c = theta.cos();
                let s = theta.sin();
                // columns p and q of the rotation
                let upp = Complex64::new(c, 0.0);
                let upq = -phase * s;
                let uqp = phase.conj() * s;
                let uqq = Complex64::new(c, 0.0);
                // a <- a u
                for k in 0..n {
                    let akp = a[k][p];
                    let akq = a[k][q];
                    a[k][p] = akp * upp + akq * uqp;
                    a[k][q] = akp * upq + akq * uqq;
                }
                // a <- u† a
                for k in 0..n {
                    let apk = a[p][k];
                    let aqk = a[q][k];
                    a[p][k] = upp.conj() * apk + uqp.conj() * aqk;
                    a[q][k] = upq.conj() * apk + uqq.conj() * aqk;
                }
                for k in 0..n {
                    let vkp = v[k][p];
                    let vkq = v[k][q];
                    v[k][p] = vkp * upp + vkq * uqp;
                    v[k][q] = vkp * upq + vkq * uqq;
                }
            }
        }
    }
    let values = (0..n).map(|i| num(a[i][i].re)).collect();
    let vectors = v.iter().map(|r| r.iter().map(|z| bits(*z)).collect()).collect();
    Some((values, vectors))
}

fn matrix(rows: &[&[(f64, f64)]]) -> Matrix {
    let data: Vec<Vec<Complex>> =
        rows.iter().map(|r| r.iter().map(|&(re, im)| complex(re, im)).collect()).collect();
    Matrix::from_rows(data).unwrap()
}

fn at(m: &Matrix, i: usize, j: usize) -> Complex64 {
    c64(m.data[i][j])
}

/// A supplier whose eigensolver always fails.
struct NoSolver;

impl Arithmetic for NoSolver {
    fn add_real(&self, a: Real, b: Real) -> Real {
        Ieee.add_real(a, b)
    }

    fn sub_real(&self, a: Real, b: Real) -> Real {
        Ieee.sub_real(a, b)
    }

    fn mul_real(&self, a: Real, b: Real) -> Real {
        Ieee.mul_real(a, b)
    }

    fn div_real(&self, a: Real, b: Real) -> Real {
        Ieee.div_real(a, b)
    }

    fn exp_real(&self, a: Real) -> Real {
        Ieee.exp_real(a)
    }

    fn ln_real(&self, a: Real) -> Real {
        Ieee.ln_real(a)
    }

    fn sqrt_real(&self, a: Real) -> Real {
        Ieee.sqrt_real(a)
    }

    fn count_from_real(&self, a: Real) -> usize {
        Ieee.count_from_real(a)
    }

    fn real_from_count(&self, n: usize) -> Real {
        Ieee.real_from_count(n)
    }

    fn add_complex(&self, a: Complex, b: Complex) -> Complex {
        Ieee.add_complex(a, b)
    }

    fn sub_complex(&self, a: Complex, b: Complex) -> Complex {
        Ieee.sub_complex(a, b)
    }

    fn mul_complex(&self, a: Complex, b: Complex) -> Complex {
        Ieee.mul_complex(a, b)
    }

    fn div_complex(&self, a: Complex, b: Complex) -> Complex {
        Ieee.div_complex(a, b)
    }

    fn norm(&self, a: Complex) -> Real {
        Ieee.norm(a)
    }

    fn norm_sqr(&self, a: Complex) -> Real {
        Ieee.norm_sqr(a)
    }

    fn eigh(&self, _rows: &Vec<Vec<Complex>>) -> Option<(Vec<Real>, Vec<Vec<Complex>>)> {
        None
    }
}

fn sigma_x() -> Matrix {
    matrix(&[&[(0.0, 0.0), (1.0, 0.0)], &[(1.0, 0.0), (0.0, 0.0)]])
}

fn sigma_y() -> Matrix {
    matrix(&[&[(0.0, 0.0), (0.0, -1.0)], &[(0.0, 1.0), (0.0, 0.0)]])
}

fn sigma_z() -> Matrix {
    matrix(&[&[(1.0, 0.0), (0.0, 0.0)], &[(0.0, 0.0), (-1.0, 0.0)]])
}

fn close(a: Complex64, b: Complex64, eps: f64) -> bool {
    (a - b).norm() <= eps
}

#[test]
fn test_dagger() {
    let mat = matrix(&[&[(1.0, 0.0), (0.0, 1.0)], &[(0.0, -1.0), (1.0, 0.0)]]);
    let dag = dagger(&mat);
    assert_eq!(at(&dag, 0, 1), Complex64::new(0.0, 1.0));
    assert_eq!(at(&dag, 1, 0), Complex64::new(0.0, -1.0));
}

#[test]
fn kernels_cpu_test_trace_identity() {
    let identity = matrix(&[&[(1.0, 0.0), (0.0, 0.0)], &[(0.0, 0.0), (1.0, 0.0)]]);
    let tr = trace(&Ieee, &identity).unwrap();
    assert!((val(tr.re) - 2.0).abs() <= 1e-10);
}

#[test]
fn test_ket_to_rho() {
    let ket = vec![complex(1.0, 0.0), complex(0.0, 0.0)];
    let rho = ket_to_rho(&Ieee, &ket);
    assert_eq!(at(&rho, 0, 0), Complex64::new(1.0, 0.0));
    assert_eq!(at(&rho, 1, 1), Complex64::new(0.0, 0.0));
}

#[test]
fn total_adds_from_zero() {
    let xs = vec![complex(1.0, 2.0), complex(0.5, -1.0), complex(-3.0, 0.25)];
    let t = total(&Ieee, &xs);
    assert_eq!(val(t.re), -1.5);
    assert_eq!(val(t.im), 1.25);
}

#[test]
fn dagger_transposes_and_conjugates() {
    let m = matrix(&[&[(1.0, 2.0), (3.0, 4.0), (5.0, 6.0)], &[(7.0, 8.0), (9.0, 10.0), (11.0, 12.0)]]);
    let d = dagger(&m);
    assert_eq!(d.data.len(), 3);
    assert_eq!(d.cols, 2);
    for i in 0..2 {
        for j in 0..3 {
            assert_eq!(at(&d, j, i), at(&m, i, j).conj());
        }
    }
}

#[test]
fn dagger_twice_is_the_matrix() {
    let m = matrix(&[&[(1.5, -2.0), (0.0, 4.0)], &[(-0.0, 8.0), (9.0, f64::INFINITY)]]);
    assert_eq!(dagger(&dagger(&m)), m);
    let wide = matrix(&[&[(1.0, 1.0), (2.0, -2.0), (3.0, 0.5)]]);
    assert_eq!(dagger(&dagger(&wide)), wide);
}

#[test]
fn trace_of_identity_is_its_dimension() {
    for n in 0..=4usize {
        let t = trace(&Ieee, &Matrix::identity(n)).unwrap();
        assert_eq!(val(t.re), n as f64);
        assert_eq!(val(t.im), 0.0);
    }
}

#[test]
fn trace_of_non_square_is_a_mismatch() {
    let m = matrix(&[&[(1.0, 0.0), (2.0, 0.0), (3.0, 0.0)], &[(4.0, 0.0), (5.0, 0.0), (6.0, 0.0)]]);
    assert_eq!(
        trace(&Ieee, &m),
        Err(EngineError::DimensionMismatch { expected: Shape::Matrix(2, 2), actual: Shape::Matrix(2, 3) })
    );
}

#[test]
fn trace_adds_the_diagonal() {
    let m = matrix(&[&[(1.0, 1.0), (100.0, 0.0)], &[(100.0, 0.0), (2.5, -3.0)]]);
    let t = trace(&Ieee, &m).unwrap();
    assert_eq!(c64(t), Complex64::new(3.5, -2.0));
}

#[test]
fn commutator_of_a_matrix_with_itself_is_zero() {
    let a = matrix(&[&[(1.0, 2.0), (3.0, -4.0)], &[(0.5, 0.0), (-7.0, 1.0)]]);
    let c = commutator(&Ieee, &a, &a).unwrap();
    for i in 0..2 {
        for j in 0..2 {
            assert_eq!(at(&c, i, j), Complex64::new(0.0, 0.0));
        }
    }
}

#[test]
fn commutator_of_pauli_matrices() {
    // [σx, σy] = 2i σz
    let c = commutator(&Ieee, &sigma_x(), &sigma_y()).unwrap();
    assert_eq!(at(&c, 0, 0), Complex64::new(0.0, 2.0));
    assert_eq!(at(&c, 0, 1), Complex64::new(0.0, 0.0));
    assert_eq!(at(&c, 1, 0), Complex64::new(0.0, 0.0));
    assert_eq!(at(&c, 1, 1), Complex64::new(0.0, -2.0));
}

#[test]
fn commutator_needs_square_matrices_of_one_size() {
    let a = sigma_x();
    let b = Matrix::identity(3);
    assert_eq!(
        commutator(&Ieee, &a, &b),
        Err(EngineError::DimensionMismatch { expected: Shape::Matrix(2, 2), actual: Shape::Matrix(3, 3) })
    );
}

#[test]
fn tensor_product_interleaves_indices() {
    let a = matrix(&[&[(1.0, 0.0), (2.0, 0.0)], &[(3.0, 0.0), (4.0, 0.0)]]);
    let b = matrix(&[&[(0.0, 1.0), (5.0, 0.0), (6.0, 0.0)], &[(7.0, 0.0), (8.0, 0.0), (9.0, 0.0)]]);
    let t = tensor_product(&Ieee, &a, &b).unwrap();
    assert_eq!(t.data.len(), 4);
    assert_eq!(t.cols, 6);
    for i in 0..2 {
        for j in 0..2 {
            for k in 0..2 {
                for l in 0..3 {
                    assert_eq!(at(&t, i * 2 + k, j * 3 + l), at(&a, i, j) * at(&b, k, l));
                }
            }
        }
    }
    assert_eq!(at(&t, 3, 5), Complex64::new(36.0, 0.0));
    assert_eq!(at(&t, 2, 0), Complex64::new(0.0, 3.0));
}

#[test]
fn tensor_product_of_two_by_two_is_four_by_four() {
    let t = tensor_product(&Ieee, &sigma_x(), &sigma_z()).unwrap();
    assert_eq!((t.data.len(), t.cols), (4, 4));
    assert!(t.data.iter().all(|r| r.len() == 4));
}

#[test]
fn matrix_exp_of_zero_is_identity() {
    for n in 1..=4usize {
        let e = matrix_exp(&Ieee, &Matrix::zeros(n, n)).unwrap();
        for i in 0..n {
            for j in 0..n {
                let want = if i == j { 1.0 } else { 0.0 };
                assert!(close(at(&e, i, j), Complex64::new(want, 0.0), 1e-10));
            }
        }
    }
}

#[test]
fn matrix_exp_of_sigma_z() {
    let e = matrix_exp(&Ieee, &sigma_z()).unwrap();
    assert!(close(at(&e, 0, 0), Complex64::new(1f64.exp(), 0.0), 1e-12));
    assert!(close(at(&e, 1, 1), Complex64::new((-1f64).exp(), 0.0), 1e-12));
    assert!(close(at(&e, 0, 1), Complex64::new(0.0, 0.0), 1e-12));
}

#[test]
fn matrix_exp_of_sigma_x() {
    // exp(σx) = cosh(1) I + sinh(1) σx
    let e = matrix_exp(&Ieee, &sigma_x()).unwrap();
    assert!(close(at(&e, 0, 0), Complex64::new(1f64.cosh(), 0.0), 1e-10));
    assert!(close(at(&e, 0, 1), Complex64::new(1f64.sinh(), 0.0), 1e-10));
    assert!(close(at(&e, 1, 0), Complex64::new(1f64.sinh(), 0.0), 1e-10));
}

#[test]
fn matrix_exp_rejects_non_square() {
    let m = matrix(&[&[(1.0, 0.0), (2.0, 0.0)]]);
    assert_eq!(
        matrix_exp(&Ieee, &m),
        Err(EngineError::DimensionMismatch { expected: Shape::Matrix(1, 1), actual: Shape::Matrix(1, 2) })
    );
}

#[test]
fn matrix_exp_reports_a_failed_decomposition() {
    assert_eq!(
        matrix_exp(&NoSolver, &sigma_z()),
        Err(EngineError::ExecutionError(ExecutionFault::DecompositionFailed))
    );
}

#[test]
fn apply_unitary_to_ket() {
    let ket = vec![complex(1.0, 0.0), complex(0.0, 0.0)];
    let out = apply_unitary_ket(&Ieee, &sigma_x(), &ket).unwrap();
    assert_eq!(c64(out[0]), Complex64::new(0.0, 0.0));
    assert_eq!(c64(out[1]), Complex64::new(1.0, 0.0));
    let long = vec![complex(1.0, 0.0); 3];
    assert_eq!(
        apply_unitary_ket(&Ieee, &sigma_x(), &long),
        Err(EngineError::DimensionMismatch { expected: Shape::Vector(2), actual: Shape::Vector(3) })
    );
}

#[test]
fn apply_unitary_to_rho() {
    let rho = matrix(&[&[(1.0, 0.0), (0.0, 0.0)], &[(0.0, 0.0), (0.0, 0.0)]]);
    let out = apply_unitary_rho(&Ieee, &sigma_x(), &rho).unwrap();
    assert_eq!(at(&out, 0, 0), Complex64::new(0.0, 0.0));
    assert_eq!(at(&out, 1, 1), Complex64::new(1.0, 0.0));
    assert!(apply_unitary_rho(&Ieee, &sigma_x(), &Matrix::identity(3)).is_err());
}

#[test]
fn expectation_is_trace_of_product() {
    let rho = matrix(&[&[(0.75, 0.0), (0.0, 0.0)], &[(0.0, 0.0), (0.25, 0.0)]]);
    let e = expectation(&Ieee, &sigma_z(), &rho).unwrap();
    assert_eq!(c64(e), Complex64::new(0.5, 0.0));
    assert!(expectation(&Ieee, &sigma_z(), &Matrix::identity(3)).is_err());
}

#[test]
fn projective_probabilities_sum_to_one() {
    let p0 = matrix(&[&[(1.0, 0.0), (0.0, 0.0)], &[(0.0, 0.0), (0.0, 0.0)]]);
    let p1 = matrix(&[&[(0.0, 0.0), (0.0, 0.0)], &[(0.0, 0.0), (1.0, 0.0)]]);
    let rho = matrix(&[&[(0.3, 0.0), (0.1, 0.2)], &[(0.1, -0.2), (0.7, 0.0)]]);
    let ps = measure_projective(&Ieee, &vec![p0, p1], &rho).unwrap();
    assert_eq!(ps.len(), 2);
    assert!((val(ps[0]) - 0.3).abs() < 1e-12);
    assert!((val(ps[1]) - 0.7).abs() < 1e-12);
    assert!((val(ps[0]) + val(ps[1]) - 1.0).abs() < 1e-9);
}

#[test]
fn projective_probabilities_are_floored_and_scaled() {
    let p0 = matrix(&[&[(1.0, 0.0), (0.0, 0.0)], &[(0.0, 0.0), (0.0, 0.0)]]);
    let p1 = matrix(&[&[(0.0, 0.0), (0.0, 0.0)], &[(0.0, 0.0), (1.0, 0.0)]]);
    // not a state: a negative entry is raised to 0 before scaling
    let odd = matrix(&[&[(-0.5, 0.0), (0.0, 0.0)], &[(0.0, 0.0), (2.0, 0.0)]]);
    let ps = measure_projective(&Ieee, &vec![p0, p1], &odd).unwrap();
    assert_eq!(val(ps[0]), 0.0);
    assert_eq!(val(ps[1]), 1.0);
}

#[test]
fn projective_probabilities_of_zero_sum_stay_zero() {
    let p0 = matrix(&[&[(1.0, 0.0), (0.0, 0.0)], &[(0.0, 0.0), (0.0, 0.0)]]);
    let p1 = matrix(&[&[(0.0, 0.0), (0.0, 0.0)], &[(0.0, 0.0), (1.0, 0.0)]]);
    let ps = measure_projective(&Ieee, &vec![p0, p1], &Matrix::zeros(2, 2)).unwrap();
    assert_eq!(ps.iter().map(|p| val(*p)).collect::<Vec<f64>>(), vec![0.0, 0.0]);
}

#[test]
fn ket_to_rho_of_normalized_ket() {
    let s = 0.5f64.sqrt();
    let ket = vec![complex(s, 0.0), complex(0.0, s)];
    let rho = ket_to_rho(&Ieee, &ket);
    for i in 0..2 {
        assert!((at(&rho, i, i).re - c64(ket[i]).norm_sqr()).abs() < 1e-15);
        assert_eq!(at(&rho, i, i).im, 0.0);
    }
    assert_eq!(at(&rho, 0, 1), c64(ket[0]) * c64(ket[1]).conj());
    let t = trace(&Ieee, &rho).unwrap();
    assert!((val(t.re) - 1.0).abs() < 1e-12);
}

#[test]
fn matrix_from_flat_and_rows() {
    let flat: Vec<Complex> = (0..6).map(|k| complex(k as f64, 0.0)).collect();
    let m = Matrix::from_flat(2, 3, &flat).unwrap();
    assert_eq!(at(&m, 1, 2), Complex64::new(5.0, 0.0));
    assert_eq!(at(&m, 1, 0), Complex64::new(3.0, 0.0));
    assert!(Matrix::from_flat(3, 3, &flat).is_none());
    assert!(Matrix::from_rows(vec![vec![complex(1.0, 0.0)], vec![]]).is_none());
    let product = m.times(&Ieee, &dagger(&m)).unwrap();
    assert_eq!(at(&product, 0, 0), Complex64::new(5.0, 0.0));
    assert_eq!(at(&product, 1, 1), Complex64::new(50.0, 0.0));
    assert!(m.times(&Ieee, &m).is_none());
    assert!(m.plus(&Ieee, &dagger(&m)).is_none());
    assert_eq!(at(&m.plus(&Ieee, &m).unwrap(), 1, 1), Complex64::new(8.0, 0.0));
    assert_eq!(at(&m.minus(&Ieee, &m).unwrap(), 1, 1), Complex64::new(0.0, 0.0));
    assert_eq!(at(&m.scaled(&Ieee, complex(0.0, 1.0)), 1, 1), Complex64::new(0.0, 4.0));
}

#[test]
fn positivity_check_reports_a_failed_eigensolver() {
    assert_eq!(
        check_psd(&NoSolver, &Matrix::identity(2)),
        Err(EngineError::ValidationError(ValidationFault::EigenvaluesFailed))
    );
    assert_eq!(check_psd(&Ieee, &Matrix::identity(2)), Ok(true));
}

#[test]
fn unitary_evolution_reports_the_step_that_fails() {
    let h = Matrix::identity(2);
    let state = vec![complex(1.0, 0.0), complex(0.0, 0.0)];
    let times = vec![num(0.0), num(1.0), num(2.0)];
    // the exponential of the first step fails
    assert_eq!(
        evolve_unitary(&NoSolver, &h, &state, &times),
        Err(EngineError::ExecutionError(ExecutionFault::DecompositionFailed))
    );
    // with one time point no exponential is asked for
    assert_eq!(evolve_unitary(&NoSolver, &h, &state, &vec![num(0.0)]), Ok(vec![state.clone()]));
    assert_eq!(evolve_unitary(&Ieee, &h, &state, &times).map(|s| s.len()), Ok(3));
}
