use num_complex::Complex64;
use quantum_theory_engine::arith::Arithmetic;
use quantum_theory_engine::error::{EngineError, ValidationFault};
use quantum_theory_engine::fit::{
    bootstrap_confidence_intervals, compute_confidence_intervals, compute_gradient,
    compute_hessian, fit_parameters_mle, gradient_descent, ranked,
};
use quantum_theory_engine::job_queue::{
    generate_full_grid, generate_param_values, ParameterRange, ParameterScale,
};
use quantum_theory_engine::matrix::Matrix;
use quantum_theory_engine::scalar::{Complex, Real};
use quantum_theory_engine::stats::{
    chi_square, gaussian_log_likelihood, kl_divergence, log_likelihood, lookup, remainder,
    MeasurementData, MeasurementEvent, Prediction,
};

fn num(x: f64) -> Real {
    Real { bits: x.to_bits() }
}

fn val(r: Real) -> f64 {
    f64::from_bits(r.bits)
}

fn complex(re: f64, im: f64) -> Complex {
    Complex { re: num(re), im: num(im) }
}

fn c64(z: Complex) -> Complex64 {
    Complex64::new(val(z.re), val(z.im))
}

fn bits(z: Complex64) -> Complex {
    complex(z.re, z.im)
}

/// Binary64 arithmetic, with the complex operations of `num_complex`.
struct Ieee;

impl Arithmetic for Ieee {
    fn add_real(&self, a: Real, b: Real) -> Real {
        num(val(a) + val(b))
    }

    fn sub_real(&self, a: Real, b: Real) -> Real {
        num(val(a) - val(b))
    }

    fn mul_real(&self, a: Real, b: Real) -> Real {
        num(val(a) * val(b))
    }

    fn div_real(&self, a: Real, b: Real) -> Real {
        num(val(a) / val(b))
    }

    fn exp_real(&self, a: Real) -> Real {
        num(val(a).exp())
    }

    fn ln_real(&self, a: Real) -> Real {
        num(val(a).ln())
    }

    fn sqrt_real(&self, a: Real) -> Real {
        num(val(a).sqrt())
    }

    fn count_from_real(&self, a: Real) -> usize {
        val(a) as usize
    }

    fn real_from_count(&self, n: usize) -> Real {
        num(n as f64)
    }

    fn add_complex(&self, a: Complex, b: Complex) -> Complex {
        bits(c64(a) + c64(b))
    }

    fn sub_complex(&self, a: Complex, b: Complex) -> Complex {
        bits(c64(a) - c64(b))
    }

    fn mul_complex(&self, a: Complex, b: Complex) -> Complex {
        bits(c64(a) * c64(b))
    }

    fn div_complex(&self, a: Complex, b: Complex) -> Complex {
        bits(c64(a) / c64(b))
    }

    fn norm(&self, a: Complex) -> Real {
        num(c64(a).norm())
    }

    fn norm_sqr(&self, a: Complex) -> Real {
        num(c64(a).norm_sqr())
    }

    fn eigh(&self, rows: &Vec<Vec<Complex>>) -> Option<(Vec<Real>, Vec<Vec<Complex>>)> {
        jacobi(rows)
    }
}

/// Eigenvalues and eigenvectors of a Hermitian matrix by cyclic Jacobi
/// rotations; the eigenvectors are the columns of the second component.
fn jacobi(rows: &Vec<Vec<Complex>>) -> Option<(Vec<Real>, Vec<Vec<Complex>>)> {
    let n = rows.len();
    let mut a: Vec<Vec<Complex64>> = rows.iter().map(|r| r.iter().map(|z| c64(*z)).collect()).collect();
    if a.iter().any(|r| r.len() != n) {
        return None;
    }
    let mut v: Vec<Vec<Complex64>> = (0..n)
        .map(|i| (0..n).map(|j| if i == j { Complex64::new(1.0, 0.0) } else { Complex64::new(0.0, 0.0) }).collect())
        .collect();
    for _sweep in 0..100 {
        let mut off = 0.0;
        for p in 0..n {
            for q in 0..n {
                if p != q {
                    off += a[p][q].norm_sqr();
                }
            }
        }
        if off < 1e-30 {
            break;
        }
        for p in 0..n {
            for q in (p + 1)..n {
                let apq = a[p][q];
                if apq.norm() < 1e-300 {
                    continue;
                }
                let phase = apq / apq.norm();
                let app = a[p][p].re;
                let aqq = a[q][q].re;
                let theta = 0.5 * (2.0 * apq.norm()).atan2(app - aqq);
                let c = theta.cos();
                let s = theta.sin();
                // columns p and q of the rotation
                let upp = Complex64::new(c, 0.0);
                let upq = -phase * s;
                let uqp = phase.conj() * s;
                let uqq = Complex64::new(c, 0.0);
                // a <- a u
                for k in 0..n {
                    let akp = a[k][p];
                    let akq = a[k][q];
                    a[k][p] = akp * upp + akq * uqp;
                    a[k][q] = akp * upq + akq * uqq;
                }
                // a <- u† a
                for k in 0..n {
                    let apk = a[p][k];
                    let aqk = a[q][k];
                    a[p][k] = upp.conj() * apk + uqp.conj() * aqk;
                    a[q][k] = upq.conj() * apk + uqq.conj() * aqk;
                }
                for k in 0..n {
                    let vkp = v[k][p];
                    let vkq = v[k][q];
                    v[k][p] = vkp * upp + vkq * uqp;
                    v[k][q] = vkp * upq + vkq * uqq;
                }
            }
        }
    }
    let values = (0..n).map(|i| num(a[i][i].re)).collect();
    let vectors = v.iter().map(|r| r.iter().map(|z| bits(*z)).collect()).collect();
    Some((values, vectors))
}

fn matrix(rows: &[&[(f64, f64)]]) -> Matrix {
    let data: Vec<Vec<Complex>> =
        rows.iter().map(|r| r.iter().map(|&(re, im)| complex(re, im)).collect()).collect();
    Matrix::from_rows(data).unwrap()
}

fn at(m: &Matrix, i: usize, j: usize) -> Complex64 {
    c64(m.data[i][j])
}

fn nums(xs: &[f64]) -> Vec<Real> {
    xs.iter().map(|x| num(*x)).collect()
}

fn vals(xs: &[Real]) -> Vec<f64> {
    xs.iter().map(|x| val(*x)).collect()
}

fn event(time: f64, id: &str, outcome: usize, count: usize) -> MeasurementEvent {
    MeasurementEvent { time: num(time), measurement_id: id.to_string(), outcome, count }
}

fn chance(time: f64, outcome: usize, probability: f64) -> Prediction {
    Prediction { time: num(time), outcome, probability: num(probability) }
}

fn invalid(fault: ValidationFault) -> EngineError {
    EngineError::ValidationError(fault)
}

#[test]
fn test_log_likelihood_discrete() {
    let events = vec![event(0.0, "z", 0, 100)];
    let predicted = vec![chance(0.0, 0, 0.9)];

    let log_l = log_likelihood(&Ieee, &events, &predicted).unwrap();
    assert!(val(log_l) < 0.0);
}

#[test]
fn test_chi_square_simple() {
    let events = vec![event(0.0, "z", 0, 90), event(0.0, "z", 1, 10)];
    let predicted = vec![chance(0.0, 0, 0.9), chance(0.0, 1, 0.1)];

    let chi2 = val(chi_square(&Ieee, &events, &predicted).unwrap());
    assert!(chi2 >= 0.0);
    assert!(chi2 < 1.0); // Should be small for good fit
}

#[test]
fn test_gradient_descent() {
    // Minimize f(x) = (x - 2)^2 + (y - 3)^2
    let f = |params: &Vec<Real>| -> Result<Real, EngineError> {
        let x = val(params[0]);
        let y = val(params[1]);
        Ok(num(-((x - 2.0).powi(2) + (y - 3.0).powi(2)))) // Negative for maximization
    };

    let result = gradient_descent(&Ieee, &f, &nums(&[0.0, 0.0]), 1000, num(0.1), num(1e-6)).unwrap();

    assert!((val(result.best_params[0]) - 2.0).abs() < 0.1);
    assert!((val(result.best_params[1]) - 3.0).abs() < 0.1);
    assert!(result.converged);
}

#[test]
fn test_compute_gradient() {
    let f = |params: &Vec<Real>| -> Result<Real, EngineError> {
        Ok(num(val(params[0]).powi(2) + 2.0 * val(params[1])))
    };

    let grad = compute_gradient(&Ieee, &f, &nums(&[1.0, 2.0]), num(1e-6)).unwrap();

    // df/dx = 2x, df/dy = 2
    assert!((val(grad[0]) - 2.0).abs() < 1e-4);
    assert!((val(grad[1]) - 2.0).abs() < 1e-4);
}

#[test]
fn test_gradient_computation() {
    // Test gradient of f(x, y) = x² + 2y
    let f = |params: &Vec<Real>| -> Result<Real, EngineError> {
        Ok(num(val(params[0]).powi(2) + 2.0 * val(params[1])))
    };

    let grad = compute_gradient(&Ieee, &f, &nums(&[1.0, 2.0]), num(1e-6)).expect("Failed to compute gradient");

    // df/dx = 2x = 2.0, df/dy = 2.0
    assert!((val(grad[0]) - 2.0).abs() < 1e-4);
    assert!((val(grad[1]) - 2.0).abs() < 1e-4);
}

#[test]
fn gaussian_likelihood_of_one_exact_measurement() {
    let one = nums(&[1.0]);
    let got = gaussian_log_likelihood(&Ieee, &one, &one, &one).unwrap();
    let two_pi: f64 = 2.0 * std::f64::consts::PI;
    let expected: f64 = 0.0 - 0.5 * (0.0 / 1.0 + (two_pi * 1.0).ln());
    assert_eq!(val(got), expected);
    assert!((val(got) + 0.9189385332046727).abs() < 1e-15);
    // two measurements take their terms one after the other
    let got = gaussian_log_likelihood(&Ieee, &nums(&[1.0, 4.0]), &nums(&[1.0, 2.0]), &nums(&[1.0, 2.0])).unwrap();
    let second: f64 = 0.5 * ((2.0_f64 * 2.0) / 4.0 + (two_pi * 4.0).ln());
    assert_eq!(val(got), expected - second);
    assert_eq!(gaussian_log_likelihood(&Ieee, &nums(&[]), &nums(&[]), &nums(&[])), Ok(num(0.0)));
}

#[test]
fn gaussian_likelihood_of_sharp_measurements_is_positive() {
    let observed = nums(&[1.0, 2.0, 3.0]);
    let uncertainties = nums(&[0.1, 0.1, 0.1]);
    let predicted = nums(&[1.05, 1.95, 3.02]);
    let got = val(gaussian_log_likelihood(&Ieee, &observed, &uncertainties, &predicted).unwrap());
    // with σ = 0.1 the term ln(2π σ²) is below zero, and outweighs the residuals
    let two_pi: f64 = 2.0 * std::f64::consts::PI;
    let term = |o: f64, u: f64, p: f64| -> f64 {
        let res = o - p;
        let v = u * u;
        0.5 * (res * res / v + (two_pi * v).ln())
    };
    let expected: f64 = 0.0 - term(1.0, 0.1, 1.05) - term(2.0, 0.1, 1.95) - term(3.0, 0.1, 3.02);
    assert_eq!(got, expected);
    assert!((got - 3.8811).abs() < 1e-3);
}

#[test]
fn fit_of_a_line_at_a_rate_it_can_follow() {
    // y = a x + b through points near y = 2 x, with wide uncertainties
    let x_values = vec![1.0, 2.0, 3.0, 4.0, 5.0];
    let y_observed = nums(&[2.1, 3.9, 6.2, 8.0, 9.8]);
    let uncertainties = nums(&[3.0, 3.0, 3.0, 3.0, 3.0]);
    let likelihood_fn = |params: &Vec<Real>| -> Result<Real, EngineError> {
        let a = val(params[0]);
        let b = val(params[1]);
        let predicted: Vec<Real> = x_values.iter().map(|&x: &f64| num(a * x + b)).collect();
        gaussian_log_likelihood(&Ieee, &y_observed, &uncertainties, &predicted)
    };
    let result = fit_parameters_mle(&Ieee, &likelihood_fn, &nums(&[1.0, 0.0]), 2000).unwrap();
    assert!((val(result.best_params[0]) - 2.0).abs() < 0.5);
    assert!(val(result.best_params[1]).abs() < 1.0);
    assert!(val(result.log_likelihood) > val(likelihood_fn(&nums(&[1.0, 0.0])).unwrap()));
}

#[test]
fn gaussian_likelihood_rejects_bad_input() {
    let three = nums(&[1.0, 2.0, 3.0]);
    let two = nums(&[1.0, 2.0]);
    assert_eq!(
        gaussian_log_likelihood(&Ieee, &three, &two, &three),
        Err(invalid(ValidationFault::LengthMismatch))
    );
    assert_eq!(
        gaussian_log_likelihood(&Ieee, &three, &three, &two),
        Err(invalid(ValidationFault::LengthMismatch))
    );
    assert_eq!(
        gaussian_log_likelihood(&Ieee, &three, &nums(&[0.1, 0.0, -1.0]), &three),
        Err(invalid(ValidationFault::UncertaintyNotPositive { value: num(0.0) }))
    );
    // a negative uncertainty has a positive square
    assert!(gaussian_log_likelihood(&Ieee, &two, &nums(&[-1.0, 1.0]), &two).is_ok());
}

#[test]
fn remainder_takes_every_element_from_zero() {
    assert_eq!(val(remainder(&Ieee, &nums(&[1.5, 2.0, -0.25]))), -3.25);
    assert_eq!(remainder(&Ieee, &nums(&[])), num(0.0));
}

#[test]
fn predictions_are_found_by_time_and_outcome() {
    let predicted = vec![chance(0.0, 0, 0.9), chance(0.0, 1, 0.1), chance(1.0, 0, 0.5), chance(0.0, 0, 0.8)];
    // the last prediction for a key holds
    assert_eq!(lookup(&predicted, num(0.0), 0), Some(num(0.8)));
    assert_eq!(lookup(&predicted, num(0.0), 1), Some(num(0.1)));
    assert_eq!(lookup(&predicted, num(1.0), 0), Some(num(0.5)));
    assert_eq!(lookup(&predicted, num(1.0), 1), None);
    // times are compared bit for bit
    assert_eq!(lookup(&predicted, num(-0.0), 0), None);
    assert_eq!(lookup(&vec![], num(0.0), 0), None);
}

#[test]
fn discrete_likelihood_weighs_logarithms_by_counts() {
    let events = vec![event(0.0, "z", 0, 100), event(0.0, "z", 1, 3)];
    let predicted = vec![chance(0.0, 0, 0.9), chance(0.0, 1, 0.1)];
    let expected: f64 = 0.0 + 100.0 * 0.9_f64.ln() + 3.0 * 0.1_f64.ln();
    assert_eq!(val(log_likelihood(&Ieee, &events, &predicted).unwrap()), expected);
    assert_eq!(log_likelihood(&Ieee, &vec![], &predicted), Ok(num(0.0)));
    assert_eq!(
        log_likelihood(&Ieee, &vec![event(2.0, "z", 1, 5)], &predicted),
        Err(invalid(ValidationFault::NoPrediction { time: num(2.0), outcome: 1 }))
    );
    let never = vec![chance(0.0, 0, 0.0)];
    assert_eq!(
        log_likelihood(&Ieee, &vec![event(0.0, "z", 0, 5)], &never),
        Err(invalid(ValidationFault::ZeroProbability))
    );
    // the first event that fails decides
    assert_eq!(
        log_likelihood(&Ieee, &vec![event(0.0, "z", 0, 5), event(9.0, "z", 0, 5)], &never),
        Err(invalid(ValidationFault::ZeroProbability))
    );
}

#[test]
fn chi_square_compares_counts_with_expectations() {
    let events = vec![event(0.0, "z", 0, 80), event(0.0, "z", 1, 20)];
    let predicted = vec![chance(0.0, 0, 0.9), chance(0.0, 1, 0.1)];
    let first: f64 = (80.0_f64 - 100.0 * 0.9) * (80.0_f64 - 100.0 * 0.9) / (100.0 * 0.9);
    let second: f64 = (20.0_f64 - 100.0 * 0.1) * (20.0_f64 - 100.0 * 0.1) / (100.0 * 0.1);
    assert_eq!(val(chi_square(&Ieee, &events, &predicted).unwrap()), 0.0 + first + second);
    // events without a prediction, or with an expected count of zero, add nothing
    let partly = vec![chance(0.0, 0, 0.9)];
    assert_eq!(val(chi_square(&Ieee, &events, &partly).unwrap()), 0.0 + first);
    let never = vec![chance(0.0, 0, 0.9), chance(0.0, 1, 0.0)];
    assert_eq!(val(chi_square(&Ieee, &events, &never).unwrap()), 0.0 + first);
    assert_eq!(chi_square(&Ieee, &vec![], &predicted), Ok(num(0.0)));
}

#[test]
fn chi_square_groups_events_by_time_and_measurement() {
    // two measurements at one time, their events in turn: each group has its own total
    let events = vec![
        event(0.0, "z", 0, 30),
        event(0.0, "x", 0, 5),
        event(0.0, "z", 1, 10),
        event(0.0, "x", 1, 15),
        event(1.0, "z", 0, 7),
    ];
    let predicted = vec![chance(0.0, 0, 0.5), chance(0.0, 1, 0.5), chance(1.0, 0, 1.0)];
    let term = |count: f64, total: f64, q: f64| -> f64 {
        let expected = total * q;
        (count - expected) * (count - expected) / expected
    };
    // the groups are taken in the order in which they begin: z, then x, then the later time
    let expected: f64 = 0.0
        + term(30.0, 40.0, 0.5)
        + term(10.0, 40.0, 0.5)
        + term(5.0, 20.0, 0.5)
        + term(15.0, 20.0, 0.5)
        + term(7.0, 7.0, 1.0);
    assert_eq!(val(chi_square(&Ieee, &events, &predicted).unwrap()), expected);
}

#[test]
fn counts_beyond_the_range_are_reported() {
    let events = vec![event(0.0, "z", 0, usize::MAX), event(0.0, "z", 1, 1)];
    let predicted = vec![chance(0.0, 0, 0.5), chance(0.0, 1, 0.5)];
    assert_eq!(chi_square(&Ieee, &events, &predicted), Err(invalid(ValidationFault::CountOverflow)));
    assert_eq!(kl_divergence(&Ieee, &events, &predicted), Err(invalid(ValidationFault::CountOverflow)));
    // in different groups the counts do not add up
    let apart = vec![event(0.0, "z", 0, usize::MAX), event(1.0, "z", 1, 1)];
    assert!(chi_square(&Ieee, &apart, &predicted).is_ok());
}

#[test]
fn divergence_of_shares_from_chances() {
    let even = vec![event(0.0, "z", 0, 50), event(0.0, "z", 1, 50)];
    let fair = vec![chance(0.0, 0, 0.5), chance(0.0, 1, 0.5)];
    assert_eq!(val(kl_divergence(&Ieee, &even, &fair).unwrap()), 0.0);
    let skewed = vec![event(0.0, "z", 0, 90), event(0.0, "z", 1, 10)];
    let p0: f64 = 90.0 / 100.0;
    let p1: f64 = 10.0 / 100.0;
    let expected: f64 = 0.0 + p0 * (p0 / 0.5).ln() + p1 * (p1 / 0.5).ln();
    assert_eq!(val(kl_divergence(&Ieee, &skewed, &fair).unwrap()), expected);
    assert!(expected > 0.0);
    // an outcome that was never seen adds nothing, whatever is predicted for it
    let unseen = vec![event(0.0, "z", 0, 10), event(0.0, "z", 1, 0)];
    let sure = vec![chance(0.0, 0, 1.0), chance(0.0, 1, 0.0)];
    assert_eq!(val(kl_divergence(&Ieee, &unseen, &sure).unwrap()), 0.0);
    // one that was seen against a chance of zero is an error
    assert_eq!(
        kl_divergence(&Ieee, &skewed, &sure),
        Err(invalid(ValidationFault::ZeroProbability))
    );
    // events without a prediction add nothing
    assert_eq!(val(kl_divergence(&Ieee, &skewed, &vec![]).unwrap()), 0.0);
}

#[test]
fn gradient_by_central_differences() {
    let f = |params: &Vec<Real>| -> Result<Real, EngineError> {
        Ok(num(3.0 * val(params[0]) - 2.0 * val(params[1])))
    };
    let grad = compute_gradient(&Ieee, &f, &nums(&[1.0, 2.0]), num(0.5)).unwrap();
    // (f(1.5, 2) - f(0.5, 2)) / (2 * 0.5) and (f(1, 2.5) - f(1, 1.5)) / (2 * 0.5)
    assert_eq!(vals(&grad), vec![3.0, -2.0]);
    assert_eq!(compute_gradient(&Ieee, &f, &nums(&[]), num(0.5)), Ok(vec![]));
    let failing = |params: &Vec<Real>| -> Result<Real, EngineError> {
        if val(params[1]) < 2.0 {
            Err(EngineError::InvalidState("below".to_string()))
        } else {
            Ok(num(val(params[0])))
        }
    };
    assert_eq!(
        compute_gradient(&Ieee, &failing, &nums(&[1.0, 2.0]), num(0.5)),
        Err(EngineError::InvalidState("below".to_string()))
    );
}

#[test]
fn second_derivatives_by_finite_differences() {
    // f = x² + 3xy
    let f = |params: &Vec<Real>| -> Result<Real, EngineError> {
        let x = val(params[0]);
        let y = val(params[1]);
        Ok(num(x * x + 3.0 * x * y))
    };
    let h = compute_hessian(&Ieee, &f, &nums(&[1.0, 2.0]), num(0.5)).unwrap();
    // on the diagonal the parameter moves by two widths: (f(2,2) - 2 f(1,2) + f(0,2)) / 0.25
    assert_eq!(val(h[0][0]), (16.0 - 2.0 * 7.0 + 0.0) / 0.25);
    assert_eq!(val(h[1][1]), (10.0 - 2.0 * 7.0 + 4.0) / 0.25);
    // off the diagonal: (f(1.5,2.5) - f(1.5,1.5) - f(0.5,2.5) + f(0.5,1.5)) / (4 * 0.5 * 0.5)
    let mixed: f64 = (13.5 - 9.0 - 4.0 + 2.5) / 1.0;
    assert_eq!(val(h[0][1]), mixed);
    assert_eq!(val(h[1][0]), mixed);
    assert_eq!(mixed, 3.0);
    let constant = |_: &Vec<Real>| -> Result<Real, EngineError> { Ok(num(1.0)) };
    assert_eq!(compute_hessian(&Ieee, &constant, &nums(&[]), num(0.5)), Ok(vec![]));
    let failing = |_: &Vec<Real>| -> Result<Real, EngineError> { Err(EngineError::NotFound("f".to_string())) };
    assert_eq!(
        compute_hessian(&Ieee, &failing, &nums(&[1.0]), num(0.5)),
        Err(EngineError::NotFound("f".to_string()))
    );
}

#[test]
fn ascent_that_does_not_settle_reports_so() {
    let f = |params: &Vec<Real>| -> Result<Real, EngineError> { Ok(num(val(params[0]))) };
    // the slope is 1 throughout: the ascent never settles
    let fit = gradient_descent(&Ieee, &f, &nums(&[0.0]), 3, num(0.5), num(1e-6)).unwrap();
    assert!(!fit.converged);
    assert_eq!(fit.iterations, 3);
    assert!((val(fit.best_params[0]) - 1.5).abs() < 1e-6);
    assert_eq!(fit.log_likelihood, f(&fit.best_params).unwrap());
    assert_eq!(vals(&fit.uncertainties), vec![f64::INFINITY]);
    assert_eq!(fit.fisher_info, vec![vec![num(0.0)]]);
    // without rounds the start is the fit
    let fit = gradient_descent(&Ieee, &f, &nums(&[0.25]), 0, num(0.5), num(1e-6)).unwrap();
    assert_eq!((fit.converged, fit.iterations), (false, 0));
    assert_eq!(vals(&fit.best_params), vec![0.25]);
    assert_eq!(val(fit.log_likelihood), 0.25);
}

#[test]
fn ascent_that_settles_reports_curvature_and_uncertainties() {
    // flat: the first round settles
    let flat = |_: &Vec<Real>| -> Result<Real, EngineError> { Ok(num(1.0)) };
    let fit = gradient_descent(&Ieee, &flat, &nums(&[2.0, 3.0]), 10, num(0.1), num(1e-6)).unwrap();
    assert!(fit.converged);
    assert_eq!(fit.iterations, 1);
    assert_eq!(vals(&fit.best_params), vec![2.0, 3.0]);
    assert_eq!(val(fit.log_likelihood), 1.0);
    assert_eq!(fit.fisher_info, vec![vec![num(0.0), num(0.0)], vec![num(0.0), num(0.0)]]);
    // rows that do not sum to more than zero give the uncertainty zero
    assert_eq!(vals(&fit.uncertainties), vec![0.0, 0.0]);
    let failing = |_: &Vec<Real>| -> Result<Real, EngineError> { Err(EngineError::NotFound("f".to_string())) };
    assert_eq!(
        gradient_descent(&Ieee, &failing, &nums(&[2.0]), 10, num(0.1), num(1e-6)).err(),
        Some(EngineError::NotFound("f".to_string()))
    );
}

#[test]
fn intervals_from_curvature() {
    let h = vec![nums(&[4.0, 9.0]), nums(&[9.0, -0.25])];
    let got = compute_confidence_intervals(&Ieee, &h, num(0.95)).unwrap();
    // variance 1/4, standard error 1/2; variance 4, standard error 2
    assert_eq!(got, vec![(num(-(1.96 * 0.5)), num(1.96 * 0.5)), (num(-(1.96 * 2.0)), num(1.96 * 2.0))]);
    let got = compute_confidence_intervals(&Ieee, &h, num(0.68)).unwrap();
    assert_eq!(got, vec![(num(-0.5), num(0.5)), (num(-2.0), num(2.0))]);
    let got = compute_confidence_intervals(&Ieee, &h, num(0.99)).unwrap();
    assert_eq!(got[0], (num(-(2.576 * 0.5)), num(2.576 * 0.5)));
    // a flat direction has no bound
    let flat = vec![nums(&[1e-10])];
    let got = compute_confidence_intervals(&Ieee, &flat, num(0.95)).unwrap();
    assert_eq!(got, vec![(num(f64::NEG_INFINITY), num(f64::INFINITY))]);
    assert_eq!(
        compute_confidence_intervals(&Ieee, &h, num(0.9)),
        Err(invalid(ValidationFault::ConfidenceLevel { level: num(0.9) }))
    );
    assert_eq!(compute_confidence_intervals(&Ieee, &vec![], num(0.95)), Ok(vec![]));
}

#[test]
fn places_in_sorted_order() {
    let xs = nums(&[3.0, 1.0, 2.0, 1.0]);
    assert_eq!(ranked(&xs, 0), Some(num(1.0)));
    assert_eq!(ranked(&xs, 1), Some(num(1.0)));
    assert_eq!(ranked(&xs, 2), Some(num(2.0)));
    assert_eq!(ranked(&xs, 3), Some(num(3.0)));
    assert_eq!(ranked(&xs, 4), None);
    assert_eq!(ranked(&nums(&[]), 0), None);
    // equal numbers keep their order
    let zeros = nums(&[0.0, -0.0, -1.0]);
    assert_eq!(ranked(&zeros, 0), Some(num(-1.0)));
    assert_eq!(ranked(&zeros, 1), Some(num(0.0)));
    assert_eq!(ranked(&zeros, 2), Some(num(-0.0)));
}

#[test]
fn bootstrap_draws_from_the_data() {
    let data: Vec<usize> = vec![3, 5, 8];
    // the estimates are the smallest and the largest item drawn
    let fit = |sample: &Vec<usize>| -> Result<Vec<Real>, EngineError> {
        if sample.len() != 3 || sample.iter().any(|i| ![3usize, 5, 8].contains(i)) {
            return Err(EngineError::InvalidState("not drawn from the data".to_string()));
        }
        let least = *sample.iter().min().unwrap();
        let most = *sample.iter().max().unwrap();
        Ok(vec![num(least as f64), num(most as f64)])
    };
    let got = bootstrap_confidence_intervals(&Ieee, &data, &fit, 40, num(0.95)).unwrap();
    assert_eq!(got.len(), 2);
    for (low, high) in &got {
        assert!(3.0 <= val(*low) && val(*low) <= val(*high) && val(*high) <= 8.0);
    }
    // data of one kind leave no choice
    let same: Vec<usize> = vec![7, 7, 7, 7];
    let mean = |sample: &Vec<usize>| -> Result<Vec<Real>, EngineError> {
        Ok(vec![num(sample.iter().sum::<usize>() as f64 / sample.len() as f64)])
    };
    assert_eq!(
        bootstrap_confidence_intervals(&Ieee, &same, &mean, 20, num(0.95)),
        Ok(vec![(num(7.0), num(7.0))])
    );
}

#[test]
fn bootstrap_reports_what_fails() {
    let data: Vec<usize> = vec![1, 2];
    let failing = |_: &Vec<usize>| -> Result<Vec<Real>, EngineError> {
        Err(EngineError::NotFound("fit".to_string()))
    };
    assert_eq!(
        bootstrap_confidence_intervals(&Ieee, &data, &failing, 5, num(0.95)),
        Err(EngineError::NotFound("fit".to_string()))
    );
    let fit = |_: &Vec<usize>| -> Result<Vec<Real>, EngineError> { Ok(vec![num(1.0)]) };
    // the upper place of the level 1 lies beyond the estimates
    assert_eq!(
        bootstrap_confidence_intervals(&Ieee, &data, &fit, 5, num(1.0)),
        Err(invalid(ValidationFault::ConfidenceLevel { level: num(1.0) }))
    );
    // at the level 0 both places are the middle one
    assert_eq!(
        bootstrap_confidence_intervals(&Ieee, &data, &fit, 5, num(0.0)),
        Ok(vec![(num(1.0), num(1.0))])
    );
    // every round must estimate as many parameters as the fit of the data
    let calls = std::cell::Cell::new(0usize);
    let growing = |_: &Vec<usize>| -> Result<Vec<Real>, EngineError> {
        calls.set(calls.get() + 1);
        Ok(vec![num(1.0); calls.get().min(2)])
    };
    assert_eq!(
        bootstrap_confidence_intervals(&Ieee, &data, &growing, 5, num(0.95)),
        Err(invalid(ValidationFault::LengthMismatch))
    );
    // without rounds there are no estimates to pick from
    assert_eq!(
        bootstrap_confidence_intervals(&Ieee, &data, &fit, 0, num(0.95)),
        Err(invalid(ValidationFault::ConfidenceLevel { level: num(0.95) }))
    );
    let none = |_: &Vec<usize>| -> Result<Vec<Real>, EngineError> { Ok(vec![]) };
    assert_eq!(bootstrap_confidence_intervals(&Ieee, &data, &none, 5, num(0.95)), Ok(vec![]));
}

#[test]
fn parameter_values_are_spaced_along_the_range() {
    let range = |steps: usize, scale: ParameterScale| ParameterRange {
        name: "omega".to_string(),
        start: num(1.0),
        end: num(4.0),
        steps,
        scale,
    };
    let linear = generate_param_values(&Ieee, &range(4, ParameterScale::Linear));
    assert_eq!(linear, vec![num(1.0), num(2.0), num(3.0), num(4.0)]);
    // a single step is the start, and no steps are no values
    assert_eq!(generate_param_values(&Ieee, &range(1, ParameterScale::Linear)), vec![num(1.0)]);
    assert_eq!(generate_param_values(&Ieee, &range(0, ParameterScale::Linear)), Vec::<Real>::new());
    let log = generate_param_values(&Ieee, &range(3, ParameterScale::Log));
    let from: f64 = 1.0_f64.ln();
    let to: f64 = 4.0_f64.ln();
    let at = |t: f64| -> f64 { (from + t * (to - from)).exp() };
    assert_eq!(log, vec![num(at(0.0 / 2.0)), num(at(1.0 / 2.0)), num(at(2.0 / 2.0))]);
    assert!((val(log[1]) - 2.0).abs() < 1e-12);
    let listed = vec![num(0.5), num(-3.0)];
    assert_eq!(generate_param_values(&Ieee, &range(7, ParameterScale::Custom(listed.clone()))), listed);
}

#[test]
fn full_grid_over_parameter_ranges() {
    let params = vec![
        ParameterRange { name: "a".to_string(), start: num(0.0), end: num(1.0), steps: 2, scale: ParameterScale::Linear },
        ParameterRange {
            name: "b".to_string(),
            start: num(0.0),
            end: num(0.0),
            steps: 0,
            scale: ParameterScale::Custom(vec![num(5.0), num(6.0), num(7.0)]),
        },
    ];
    let grid = generate_full_grid(&Ieee, &params);
    assert_eq!(grid.len(), 6);
    let point = |a: f64, b: f64| vec![("a".to_string(), num(a)), ("b".to_string(), num(b))];
    assert_eq!(
        grid,
        vec![point(0.0, 5.0), point(0.0, 6.0), point(0.0, 7.0), point(1.0, 5.0), point(1.0, 6.0), point(1.0, 7.0)]
    );
    assert_eq!(generate_full_grid(&Ieee, &vec![]), vec![Vec::<(String, Real)>::new()]);
}

#[test]
fn fresh_measurement_data_hold_nothing() {
    let data = MeasurementData::new();
    assert!(data.observables.is_empty());
    assert_eq!(data.num_shots, 0);
    assert_eq!(data.metadata, "{}");
}

#[test]
fn test_gaussian_log_likelihood() {
    let observed = nums(&[1.0, 2.0, 3.0]);
    let uncertainties = nums(&[0.1, 0.1, 0.1]);
    let predicted = nums(&[1.05, 1.95, 3.02]);

    let log_l = gaussian_log_likelihood(&Ieee, &observed, &uncertainties, &predicted).unwrap();
    // With σ = 0.1 each term ln(2π σ²) is -2.77 and outweighs the residuals, so the
    // logarithm of this likelihood lies above zero.
    assert!(val(log_l) > 0.0);
    assert!((val(log_l) - 3.8811).abs() < 1e-3);
}

#[test]
fn test_statistics_workflow() {
    let observed = nums(&[1.0, 2.0, 3.0]);
    let uncertainties = nums(&[0.1, 0.1, 0.1]);
    let predicted = nums(&[1.05, 1.95, 3.02]);

    let log_l = val(
        gaussian_log_likelihood(&Ieee, &observed, &uncertainties, &predicted)
            .expect("Failed to compute log-likelihood"),
    );

    // A density of sharp measurements exceeds one near its peak, so the logarithm is
    // above zero here; it stays of moderate size.
    assert!(log_l > 0.0);
    assert!(log_l < 10.0);
}

#[test]
fn test_mle_fitting() {
    // Fit a simple linear model: y = a*x + b
    let x_values = vec![1.0, 2.0, 3.0, 4.0, 5.0];
    let y_observed = nums(&[2.1, 3.9, 6.2, 8.0, 9.8]); // Roughly y = 2x
    let uncertainties = nums(&[0.1, 0.1, 0.1, 0.1, 0.1]);

    let likelihood_fn = |params: &Vec<Real>| -> Result<Real, EngineError> {
        let a = val(params[0]);
        let b = val(params[1]);

        let predicted: Vec<Real> = x_values.iter().map(|&x: &f64| num(a * x + b)).collect();

        gaussian_log_likelihood(&Ieee, &y_observed, &uncertainties, &predicted)
    };

    let start = nums(&[1.0, 0.0]);
    let result = fit_parameters_mle(&Ieee, &likelihood_fn, &start, 100).expect("Failed to fit");

    // At the fixed rate 0.01 the first step along the slope of 5450 is 54.5 wide and
    // overshoots, and every further step more so: the ascent runs away from a = 2.
    assert!((val(result.best_params[0]) - 2.0).abs() > 0.5);
    assert!(val(result.log_likelihood) < val(likelihood_fn(&start).unwrap()));
}
