use linfa_svm::fixed::{Fx, MAX_BITS, SCALE};
use linfa_svm::kernel::Kernel;
use linfa_svm::solver::SvmResult;

fn fx(x: f64) -> Fx {
    Fx::from_bits((x * SCALE as f64).round() as i64)
}

#[test]
fn add_sub_exact() {
    let a = fx(1.5);
    let b = fx(2.25);
    assert_eq!(a.add(b), fx(3.75));
    assert_eq!(a.sub(b), fx(-0.75));
    assert_eq!(b.neg(), fx(-2.25));
}

#[test]
fn add_saturates() {
    let big = Fx::from_bits(MAX_BITS);
    assert_eq!(big.add(Fx::one()).bits(), MAX_BITS);
    assert_eq!(big.neg().sub(Fx::one()).bits(), -MAX_BITS);
}

#[test]
fn mul_exact() {
    assert_eq!(fx(3.5).mul(fx(2.0)), fx(7.0));
    assert_eq!(fx(-3.5).mul(fx(2.0)), fx(-7.0));
    assert_eq!(fx(0.5).mul(fx(0.5)), fx(0.25));
    assert_eq!(Fx::from_int(3), fx(3.0));
}

#[test]
fn mul_rounds_toward_zero() {
    // (1 unit) * (1 unit) is far below one unit: truncates to zero,
    // from either sign.
    let tiny = Fx::from_bits(1);
    assert_eq!(tiny.mul(tiny).bits(), 0);
    assert_eq!(tiny.neg().mul(tiny).bits(), 0);
}

#[test]
fn div_exact_and_truncating() {
    assert_eq!(fx(7.0).div(fx(2.0)), fx(3.5));
    assert_eq!(fx(-7.0).div(fx(2.0)), fx(-3.5));
    // 1/3 truncates toward zero.
    let third = Fx::one().div(Fx::from_int(3));
    assert_eq!(third.bits(), SCALE / 3);
    let neg_third = Fx::one().neg().div(Fx::from_int(3));
    assert_eq!(neg_third.bits(), -(SCALE / 3));
}

#[test]
fn order_matches_value() {
    assert!(fx(-1.0).lt(fx(0.5)));
    assert!(fx(0.5).le(fx(0.5)));
    assert!(!fx(0.5).lt(fx(0.5)));
}

#[test]
fn kernel_new_checks_length() {
    let vals = vec![Fx::zero(); 9];
    assert!(Kernel::new(3, vals).is_some());
    let vals = vec![Fx::zero(); 8];
    assert!(Kernel::new(3, vals).is_none());
}

#[test]
fn predict_exact_value() {
    let m = SvmResult { alpha: vec![fx(1.0), fx(2.0)], rho: fx(0.5), r: None, obj: Fx::zero(), converged: true };
    let col = vec![fx(0.5), fx(0.25)];
    // 1 * 0.5 + 2 * 0.25 - 0.5 = 0.5, exactly representable.
    assert_eq!(m.predict(&col), fx(0.5));
}

#[test]
fn predict_is_idempotent() {
    let m = SvmResult {
        alpha: vec![fx(0.125), fx(-1.75), fx(3.0)],
        rho: fx(-0.375),
        r: None,
        obj: Fx::zero(),
        converged: true,
    };
    let col = vec![fx(2.0), fx(0.5), fx(-1.25)];
    let first = m.predict(&col);
    let second = m.predict(&col);
    assert_eq!(first, second);
}
