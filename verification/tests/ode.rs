use num_complex::Complex64;
use quantum_theory_engine::arith::Arithmetic;
use quantum_theory_engine::error::{EngineError, ValidationFault};
use quantum_theory_engine::matrix::Matrix;
use quantum_theory_engine::ode::{evolve_unitary, Rk4Integrator};
use quantum_theory_engine::scalar::{Complex, Real};
use quantum_theory_engine::typechecker::Shape;

fn num(x: f64) -> Real {
    Real { bits: x.to_bits() }
}

fn val(r: Real) -> f64 {
    f64::from_bits(r.bits)
}

fn complex(re: f64, im: f64) -> Complex {
    Complex { re: num(re), im: num(im) }
}

fn c64(z: Complex) -> Complex64 {
    Complex64::new(val(z.re), val(z.im))
}

fn bits(z: Complex64) -> Complex {
    complex(z.re, z.im)
}

/// Binary64 arithmetic, with the complex operations of `num_complex`.
struct Ieee;

impl Arithmetic for Ieee {
    fn add_real(&self, a: Real, b: Real) -> Real {
        num(val(a) + val(b))
    }

    fn sub_real(&self, a: Real, b: Real) -> Real {
        num(val(a) - val(b))
    }

    fn mul_real(&self, a: Real, b: Real) -> Real {
        num(val(a) * val(b))
    }

    fn div_real(&self, a: Real, b: Real) -> Real {
        num(val(a) / val(b))
    }

    fn exp_real(&self, a: Real) -> Real {
        num(val(a).exp())
    }

    fn ln_real(&self, a: Real) -> Real {
        num(val(a).ln())
    }

    fn sqrt_real(&self, a: Real) -> Real {
        num(val(a).sqrt())
    }

    fn count_from_real(&self, a: Real) -> usize {
        val(a) as usize
    }

    fn real_from_count(&self, n: usize) -> Real {
        num(n as f64)
    }

    fn add_complex(&self, a: Complex, b: Complex) -> Complex {
        bits(c64(a) + c64(b))
    }

    fn sub_complex(&self, a: Complex, b: Complex) -> Complex {
        bits(c64(a) - c64(b))
    }

    fn mul_complex(&self, a: Complex, b: Complex) -> Complex {
        bits(c64(a) * c64(b))
    }

    fn div_complex(&self, a: Complex, b: Complex) -> Complex {
        bits(c64(a) / c64(b))
    }

    fn norm(&self, a: Complex) -> Real {
        num(c64(a).norm())
    }

    fn norm_sqr(&self, a: Complex) -> Real {
        num(c64(a).norm_sqr())
    }

    fn eigh(&self, rows: &Vec<Vec<Complex>>) -> Option<(Vec<Real>, Vec<Vec<Complex>>)> {
        jacobi(rows)
    }
}

/// Eigenvalues and eigenvectors of a Hermitian matrix by cyclic Jacobi
/// rotations; the eigenvectors are the columns of the second component.
fn jacobi(rows: &Vec<Vec<Complex>>) -> Option<(Vec<Real>, Vec<Vec<Complex>>)> {
    let n = rows.len();
    let mut a: Vec<Vec<Complex64>> = rows.iter().map(|r| r.iter().map(|z| c64(*z)).collect()).collect();
    if a.iter().any(|r| r.len() != n) {
        return None;
    }
    let mut v: Vec<Vec<Complex64>> = (0..n)
        .map(|i| (0..n).map(|j| if i == j { Complex64::new(1.0, 0.0) } else { Complex64::new(0.0, 0.0) }).collect())
        .collect();
    for _sweep in 0..100 {
        let mut off = 0.0;
        for p in 0..n {
            for q in 0..n {
                if p != q {
                    off += a[p][q].norm_sqr();
                }
            }
        }
        if off < 1e-30 {
            break;
        }
        for p in 0..n {
            for q in (p + 1)..n {
                let apq = a[p][q];
                if apq.norm() < 1e-300 {
                    continue;
                }
                let phase = apq / apq.norm();
                let app = a[p][p].re;
                let aqq = a[q][q].re;
                let theta = 0.5 * (2.0 * apq.norm()).atan2(app - aqq);
                let c = theta.cos();
                let s = theta.sin();
                // columns p and q of the rotation
                let upp = Complex64::new(c, 0.0);
                let upq = -phase * s;
                let uqp = phase.conj() * s;
                let uqq = Complex64::new(c, 0.0);
                // a <- a u
                for k in 0..n {
                    let akp = a[k][p];
                    let akq = a[k][q];
                    a[k][p] = akp * upp + akq * uqp;
                    a[k][q] = akp * upq + akq * uqq;
                }
                // a <- u† a
                for k in 0..n {
                    let apk = a[p][k];
                    let aqk = a[q][k];
                    a[p][k] = upp.conj() * apk + uqp.conj() * aqk;
                    a[q][k] = upq.conj() * apk + uqq.conj() * aqk;
                }
                for k in 0..n {
                    let vkp = v[k][p];
                    let vkq = v[k][q];
                    v[k][p] = vkp * upp + vkq * uqp;
                    v[k][q] = vkp * upq + vkq * uqq;
                }
            }
        }
    }
    let values = (0..n).map(|i| num(a[i][i].re)).collect();
    let vectors = v.iter().map(|r| r.iter().map(|z| bits(*z)).collect()).collect();
    Some((values, vectors))
}

fn matrix(rows: &[&[(f64, f64)]]) -> Matrix {
    let data: Vec<Vec<Complex>> =
        rows.iter().map(|r| r.iter().map(|&(re, im)| complex(re, im)).collect()).collect();
    Matrix::from_rows(data).unwrap()
}

fn at(m: &Matrix, i: usize, j: usize) -> Complex64 {
    c64(m.data[i][j])
}

fn grid(ts: &[f64]) -> Vec<Real> {
    ts.iter().map(|t| num(*t)).collect()
}

#[test]
fn test_rk4_constant_state() {
    // With H=0 and no Lindblad ops, state should remain constant
    let h = Matrix::zeros(2, 2);
    let rho0 = matrix(&[&[(1.0, 0.0), (0.0, 0.0)], &[(0.0, 0.0), (0.0, 0.0)]]);
    let integrator = Rk4Integrator::new(h, Vec::new());
    let times = grid(&[0.0, 0.1, 0.2]);
    let result = integrator.integrate(&Ieee, rho0.duplicate(), &times).unwrap();
    assert!((at(&result.states[2], 0, 0).re - 1.0).abs() <= 1e-6);
}

#[test]
fn rk4_without_generator_keeps_every_state() {
    let h = Matrix::zeros(2, 2);
    let rho0 = matrix(&[&[(0.25, 0.0), (0.1, 0.3)], &[(0.1, -0.3), (0.75, 0.0)]]);
    let integrator = Rk4Integrator::new(h, Vec::new());
    let times = grid(&[0.0, 0.1, 0.2]);
    let result = integrator.integrate(&Ieee, rho0.duplicate(), &times).unwrap();
    assert_eq!(result.states.len(), 3);
    assert_eq!(result.times, times);
    assert_eq!(result.states[0], rho0);
    for state in &result.states {
        for i in 0..2 {
            for j in 0..2 {
                assert!((at(state, i, j) - at(&rho0, i, j)).norm() <= 1e-6);
            }
        }
    }
}

#[test]
fn rk4_rotates_under_sigma_x() {
    // ρ(t) for H = σx from |0><0|: ρ00 = cos²(t)
    let h = matrix(&[&[(0.0, 0.0), (1.0, 0.0)], &[(1.0, 0.0), (0.0, 0.0)]]);
    let rho0 = matrix(&[&[(1.0, 0.0), (0.0, 0.0)], &[(0.0, 0.0), (0.0, 0.0)]]);
    let integrator = Rk4Integrator::new(h, Vec::new());
    let times: Vec<Real> = (0..=100).map(|k| num(k as f64 * 0.01)).collect();
    let result = integrator.integrate(&Ieee, rho0, &times).unwrap();
    let last = &result.states[100];
    assert!((at(last, 0, 0).re - 1f64.cos().powi(2)).abs() < 1e-6);
    assert!((at(last, 0, 0).re + at(last, 1, 1).re - 1.0).abs() < 1e-9);
}

#[test]
fn rk4_decays_with_a_lowering_operator() {
    // amplitude damping: the excited population decays as exp(-γ t)
    let h = Matrix::zeros(2, 2);
    let lower = matrix(&[&[(0.0, 0.0), (1.0, 0.0)], &[(0.0, 0.0), (0.0, 0.0)]]);
    let rho0 = matrix(&[&[(0.0, 0.0), (0.0, 0.0)], &[(0.0, 0.0), (1.0, 0.0)]]);
    let integrator = Rk4Integrator::new(h, vec![(lower, num(0.5))]);
    let times: Vec<Real> = (0..=200).map(|k| num(k as f64 * 0.01)).collect();
    let result = integrator.integrate(&Ieee, rho0, &times).unwrap();
    let last = &result.states[200];
    assert!((at(last, 1, 1).re - (-1.0f64).exp()).abs() < 1e-6);
    assert!((at(last, 0, 0).re + at(last, 1, 1).re - 1.0).abs() < 1e-9);
}

#[test]
fn rk4_single_step_has_the_classic_weights() {
    // dρ/dt = -i[H,ρ] with H = diag(1, 0): ρ01 turns with exp(-i t).
    // One step of size h multiplies ρ01 by 1 + z + z²/2 + z³/6 + z⁴/24, z = -i h.
    let h = matrix(&[&[(1.0, 0.0), (0.0, 0.0)], &[(0.0, 0.0), (0.0, 0.0)]]);
    let rho0 = matrix(&[&[(0.5, 0.0), (0.5, 0.0)], &[(0.5, 0.0), (0.5, 0.0)]]);
    let integrator = Rk4Integrator::new(h, Vec::new());
    let step = 0.5;
    let result = integrator.integrate(&Ieee, rho0, &grid(&[0.0, step])).unwrap();
    let z = Complex64::new(0.0, -step);
    let factor = Complex64::new(1.0, 0.0) + z + z * z / 2.0 + z * z * z / 6.0 + z * z * z * z / 24.0;
    assert!((at(&result.states[1], 0, 1) - factor * 0.5).norm() < 1e-15);
}

#[test]
fn rk4_rejects_an_empty_grid() {
    let integrator = Rk4Integrator::new(Matrix::zeros(2, 2), Vec::new());
    let r = integrator.integrate(&Ieee, Matrix::identity(2), &Vec::new());
    assert_eq!(r.err(), Some(EngineError::ValidationError(ValidationFault::EmptyTimeGrid)));
}

#[test]
fn rk4_rejects_a_grid_that_does_not_increase() {
    let integrator = Rk4Integrator::new(Matrix::zeros(2, 2), Vec::new());
    for ts in [[0.0, 0.1, 0.1], [0.0, 0.2, 0.1]] {
        let r = integrator.integrate(&Ieee, Matrix::identity(2), &grid(&ts));
        assert_eq!(r.err(), Some(EngineError::ValidationError(ValidationFault::TimeGridNotIncreasing)));
    }
    let single = integrator.integrate(&Ieee, Matrix::identity(2), &grid(&[3.0])).unwrap();
    assert_eq!(single.states.len(), 1);
}

#[test]
fn rk4_rejects_operators_that_do_not_fit() {
    let integrator = Rk4Integrator::new(Matrix::zeros(3, 3), Vec::new());
    let r = integrator.integrate(&Ieee, Matrix::identity(2), &grid(&[0.0, 0.1]));
    assert_eq!(
        r.err(),
        Some(EngineError::DimensionMismatch { expected: Shape::Matrix(2, 2), actual: Shape::Matrix(3, 3) })
    );
    let with_op = Rk4Integrator::new(Matrix::zeros(2, 2), vec![(Matrix::zeros(2, 1), num(1.0))]);
    let r = with_op.integrate(&Ieee, Matrix::identity(2), &grid(&[0.0, 0.1]));
    assert_eq!(
        r.err(),
        Some(EngineError::DimensionMismatch { expected: Shape::Matrix(2, 2), actual: Shape::Matrix(2, 1) })
    );
    let r = integrator.integrate(&Ieee, Matrix::zeros(2, 3), &grid(&[0.0, 0.1]));
    assert_eq!(
        r.err(),
        Some(EngineError::DimensionMismatch { expected: Shape::Matrix(2, 2), actual: Shape::Matrix(2, 3) })
    );
}

#[test]
fn schrodinger_evolution_keeps_the_norm() {
    let omega = 1.0;
    let h = matrix(&[&[(omega / 2.0, 0.0), (0.0, 0.0)], &[(0.0, 0.0), (-omega / 2.0, 0.0)]]);
    let ket = vec![complex(1.0, 0.0), complex(0.0, 0.0)];
    let times: Vec<Real> = (0..=10).map(|k| num(k as f64 * 0.3)).collect();
    let states = evolve_unitary(&Ieee, &h, &ket, &times).unwrap();
    assert_eq!(states.len(), times.len());
    assert_eq!(states[0], ket);
    for s in &states {
        let norm: f64 = s.iter().map(|z| c64(*z).norm_sqr()).sum::<f64>().sqrt();
        assert!((norm - 1.0).abs() <= 1e-9);
    }
}

#[test]
fn schrodinger_evolution_under_zero_hamiltonian_keeps_the_ket() {
    let h = matrix(&[&[(0.0, 0.0), (0.0, 0.0)], &[(0.0, 0.0), (0.0, 0.0)]]);
    let ket = vec![complex(0.6, 0.0), complex(0.0, 0.8)];
    let states = evolve_unitary(&Ieee, &h, &ket, &grid(&[0.0, 1.0, 2.0])).unwrap();
    for s in &states {
        assert!((c64(s[0]) - Complex64::new(0.6, 0.0)).norm() < 1e-12);
        assert!((c64(s[1]) - Complex64::new(0.0, 0.8)).norm() < 1e-12);
    }
}

#[test]
fn schrodinger_evolution_edge_grids() {
    let h = Matrix::identity(2);
    let ket = vec![complex(1.0, 0.0), complex(0.0, 0.0)];
    assert_eq!(evolve_unitary(&Ieee, &h, &ket, &Vec::new()).unwrap().len(), 0);
    assert_eq!(evolve_unitary(&Ieee, &h, &ket, &grid(&[5.0])).unwrap(), vec![ket.clone()]);
    let wide = Matrix::zeros(2, 3);
    assert_eq!(
        evolve_unitary(&Ieee, &wide, &ket, &grid(&[0.0, 1.0])).err(),
        Some(EngineError::DimensionMismatch { expected: Shape::Matrix(2, 2), actual: Shape::Matrix(2, 3) })
    );
    // with fewer than two points nothing is computed, so nothing fails
    assert!(evolve_unitary(&Ieee, &wide, &ket, &grid(&[0.0])).is_ok());
    let long = vec![complex(1.0, 0.0); 3];
    assert_eq!(
        evolve_unitary(&Ieee, &h, &long, &grid(&[0.0, 1.0])).err(),
        Some(EngineError::DimensionMismatch { expected: Shape::Vector(2), actual: Shape::Vector(3) })
    );
}
