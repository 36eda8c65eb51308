use quantum_theory_engine::scalar::{Complex, Real};

fn num(x: f64) -> Real {
    Real { bits: x.to_bits() }
}

fn val(r: Real) -> f64 {
    f64::from_bits(r.bits)
}

#[test]
fn order_follows_the_numbers() {
    let xs = [
        -f64::INFINITY,
        -2.5,
        -1e-300,
        -5e-324,
        -0.0,
        0.0,
        5e-324,
        1e-10,
        1.0,
        3.0,
        f64::MAX,
        f64::INFINITY,
    ];
    for a in xs {
        for b in xs {
            assert_eq!(num(a).less_than(num(b)), a < b);
            assert_eq!(num(a).less_or_equal(num(b)), a <= b);
            assert_eq!(num(a).greater_than(num(b)), a > b);
            assert_eq!(num(a).equals(num(b)), a == b);
            assert_eq!(val(num(a).max(num(b))), a.max(b));
            assert_eq!(val(num(a).min(num(b))), a.min(b));
        }
        assert!(!num(a).less_than(num(f64::NAN)));
        assert!(!num(f64::NAN).less_than(num(a)));
        assert!(!num(f64::NAN).less_or_equal(num(a)));
        assert!(!num(a).equals(num(f64::NAN)));
        assert_eq!(val(num(a).max(num(f64::NAN))), a);
        assert_eq!(val(num(f64::NAN).max(num(a))), a);
        assert_eq!(val(num(a).min(num(f64::NAN))), a);
        assert_eq!(val(num(a).neg()).to_bits(), (-a).to_bits());
        assert_eq!(val(num(a).abs()).to_bits(), a.abs().to_bits());
        assert!(!num(a).is_nan());
    }
    assert!(num(f64::NAN).is_nan());
    assert!(num(-f64::NAN).is_nan());
    assert!(!num(f64::NAN).equals(num(f64::NAN)));
}

#[test]
fn constants_have_their_values() {
    assert_eq!(val(Real::zero()), 0.0);
    assert_eq!(val(Real::one()), 1.0);
    assert_eq!(val(Real::from_bits(quantum_theory_engine::VALIDATION_TOL_BITS)), 1e-10);
    assert_eq!(val(Real::from_bits(quantum_theory_engine::validator::NEGATIVE_TOL_BITS)), -1e-10);
    assert_eq!(val(Real::from_bits(quantum_theory_engine::ode::TWO_BITS)), 2.0);
    assert_eq!(val(Real::from_bits(quantum_theory_engine::ode::SIX_BITS)), 6.0);
    assert_eq!(val(Real::from_bits(quantum_theory_engine::ode::HALF_BITS)), 0.5);
    assert_eq!(val(Real::from_bits(quantum_theory_engine::ode::MINUS_ONE_BITS)), -1.0);
    assert_eq!(val(Real::from_bits(quantum_theory_engine::prover::TINY_BITS)), 1e-15);
    assert_eq!(val(Real::from_bits(quantum_theory_engine::scalar::INFINITY_BITS)), f64::INFINITY);
    assert_eq!(quantum_theory_engine::MAX_HILBERT_DIM, 4);
    assert_eq!(Real::from_bits(7).to_bits(), 7);
}

#[test]
fn conjugate_negates_the_imaginary_part() {
    let z = Complex::new(num(1.5), num(-2.0));
    let c = z.conj();
    assert_eq!((val(c.re), val(c.im)), (1.5, 2.0));
    assert_eq!(z.conj().conj(), z);
    let w = Complex::from_real(num(3.0));
    assert_eq!((val(w.re), val(w.im)), (3.0, 0.0));
    assert_eq!(Complex::zero(), Complex::new(num(0.0), num(0.0)));
    assert_eq!(Complex::one(), Complex::new(num(1.0), num(0.0)));
}
