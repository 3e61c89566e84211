use linfa_svm::classification::{
    fit_c, fit_nu, fit_one_class, nu_init, one_class_init, SvmError,
};
use linfa_svm::fixed::{Fx, SCALE};
use linfa_svm::kernel::Kernel;
use linfa_svm::solver::SolverParams;

fn fx(x: f64) -> Fx {
    Fx::from_bits((x * SCALE as f64).round() as i64)
}

fn params() -> SolverParams {
    SolverParams { eps: fx(1e-3), shrinking: false }
}

/// A small two-cluster kernel: four points on a line, linear kernel.
fn line_kernel() -> (Kernel, Vec<bool>) {
    let xs = [-2.0f64, -1.0, 1.0, 2.0];
    let mut vals = Vec::new();
    for a in xs.iter() {
        for b in xs.iter() {
            vals.push(fx(a * b));
        }
    }
    let targets = vec![false, false, true, true];
    (Kernel::new(4, vals).unwrap(), targets)
}

#[test]
fn c_alpha_inside_signed_box_and_sums_to_zero() {
    let (kernel, targets) = line_kernel();
    let p = params();
    let m = fit_c(&p, &kernel, &targets, fx(1.0), fx(1.0)).unwrap();
    let mut sum: i64 = 0;
    for (a, t) in m.alpha.iter().zip(targets.iter()) {
        if *t {
            assert!(0 <= a.bits() && a.bits() <= SCALE);
        } else {
            assert!(-SCALE <= a.bits() && a.bits() <= 0);
        }
        sum += a.bits();
    }
    // The equality constraint is preserved exactly, so the signed
    // coefficients sum to exactly zero in fixed-point units.
    assert_eq!(sum, 0);
    assert!(m.r.is_none());
    assert!(m.converged);
}

#[test]
fn nu_alpha_signs_and_near_zero_sum() {
    let (kernel, targets) = line_kernel();
    let p = params();
    let m = fit_nu(&p, &kernel, &targets, fx(0.5)).unwrap();
    let r = m.r.expect("nu mode reports r");
    assert!(r.bits() > 0);
    let mut sum: i64 = 0;
    for (a, t) in m.alpha.iter().zip(targets.iter()) {
        if *t {
            assert!(a.bits() >= 0);
        } else {
            assert!(a.bits() <= 0);
        }
        sum += a.bits();
    }
    // Both classes absorb the initial mass, so the rescaled sum stays
    // within one unit per sample of zero.
    assert!(sum.abs() < targets.len() as i64);
    assert!(m.converged);
}

#[test]
fn one_class_mass_preserved_exactly() {
    let n = 8usize;
    let mut vals = Vec::new();
    for i in 0..n {
        for j in 0..n {
            let d = (i as f64 - j as f64) * 0.5;
            vals.push(fx((-d * d / 10.0).exp()));
        }
    }
    let kernel = Kernel::new(n, vals).unwrap();
    let p = params();
    let nu = fx(0.25);
    let m = fit_one_class(&p, &kernel, nu).unwrap();
    let sum: i64 = m.alpha.iter().map(|a| a.bits()).sum();
    // sum(alpha) == nu * n exactly, at convergence as at initialization.
    assert_eq!(sum, nu.bits() * n as i64);
    for a in m.alpha.iter() {
        assert!(0 <= a.bits() && a.bits() <= SCALE);
    }
    assert!(m.r.is_none());
    assert!(m.converged);
}

#[test]
fn one_class_init_mass_exact_at_initialization() {
    let nu = fx(0.3);
    let init = one_class_init(10, nu);
    let sum: i64 = init.iter().map(|a| a.bits()).sum();
    assert_eq!(sum, nu.bits() * 10);
    // First floor(nu * n) = 3 entries saturated, one fractional, rest zero.
    assert_eq!(init[0].bits(), SCALE);
    assert_eq!(init[1].bits(), SCALE);
    assert_eq!(init[2].bits(), SCALE);
    assert_eq!(init[3].bits(), nu.bits() * 10 - 3 * SCALE);
    for k in 4..10 {
        assert_eq!(init[k].bits(), 0);
    }
}

#[test]
fn one_class_init_nu_near_zero_is_nearly_empty() {
    let nu = fx(0.001);
    let init = one_class_init(100, nu);
    let nonzero = init.iter().filter(|a| a.bits() != 0).count();
    assert_eq!(nonzero, 1);
    let sum: i64 = init.iter().map(|a| a.bits()).sum();
    assert_eq!(sum, nu.bits() * 100);
}

#[test]
fn one_class_init_nu_near_one_saturates() {
    let nu = fx(0.99);
    let init = one_class_init(100, nu);
    let saturated = init.iter().filter(|a| a.bits() == SCALE).count();
    assert_eq!(saturated, 99);
}

#[test]
fn nu_init_splits_mass_between_classes() {
    let targets = vec![true, false, true, false];
    let nu = fx(0.5);
    let init = nu_init(&targets, nu);
    // Per-class mass is nu * n / 2 = 1.0: the first sample of each class
    // takes it all.
    assert_eq!(init[0].bits(), SCALE);
    assert_eq!(init[1].bits(), SCALE);
    assert_eq!(init[2].bits(), 0);
    assert_eq!(init[3].bits(), 0);
}

#[test]
fn invalid_parameters_are_rejected() {
    let (kernel, targets) = line_kernel();
    let p = params();
    // Non-positive penalty.
    assert_eq!(
        fit_c(&p, &kernel, &targets, fx(0.0), fx(1.0)).unwrap_err(),
        SvmError::InvalidParameter
    );
    // nu outside (0, 1).
    assert_eq!(fit_nu(&p, &kernel, &targets, fx(1.0)).unwrap_err(), SvmError::InvalidParameter);
    assert_eq!(fit_nu(&p, &kernel, &targets, fx(0.0)).unwrap_err(), SvmError::InvalidParameter);
    assert_eq!(fit_one_class(&p, &kernel, fx(1.5)).unwrap_err(), SvmError::InvalidParameter);
    // Label count must match the kernel size.
    let short = vec![true, false];
    assert_eq!(
        fit_c(&p, &kernel, &short, fx(1.0), fx(1.0)).unwrap_err(),
        SvmError::InvalidParameter
    );
    // The tolerance must be positive.
    let bad = SolverParams { eps: fx(0.0), shrinking: false };
    assert_eq!(
        fit_c(&bad, &kernel, &targets, fx(1.0), fx(1.0)).unwrap_err(),
        SvmError::InvalidParameter
    );
}

#[test]
fn empty_sample_set_is_rejected() {
    let kernel = Kernel::new(0, Vec::new()).unwrap();
    let targets: Vec<bool> = Vec::new();
    let p = params();
    assert_eq!(
        fit_c(&p, &kernel, &targets, fx(1.0), fx(1.0)).unwrap_err(),
        SvmError::InvalidParameter
    );
    assert_eq!(fit_nu(&p, &kernel, &targets, fx(0.5)).unwrap_err(), SvmError::InvalidParameter);
    assert_eq!(fit_one_class(&p, &kernel, fx(0.5)).unwrap_err(), SvmError::InvalidParameter);
}

#[test]
fn degenerate_nu_solution_is_reported() {
    // An all-zero kernel makes every gradient zero, so both class margins
    // are zero and the normalization r is zero: no rescaling is possible.
    let vals = vec![Fx::zero(); 4];
    let kernel = Kernel::new(2, vals).unwrap();
    let targets = vec![true, false];
    let p = params();
    assert_eq!(fit_nu(&p, &kernel, &targets, fx(0.5)).unwrap_err(), SvmError::DegenerateSolution);
}

#[test]
fn shrinking_keeps_the_contracted_invariants() {
    let (kernel, targets) = line_kernel();
    let p = SolverParams { eps: fx(1e-3), shrinking: true };
    let m = fit_c(&p, &kernel, &targets, fx(1.0), fx(1.0)).unwrap();
    let mut sum: i64 = 0;
    for (a, t) in m.alpha.iter().zip(targets.iter()) {
        if *t {
            assert!(0 <= a.bits() && a.bits() <= SCALE);
        } else {
            assert!(-SCALE <= a.bits() && a.bits() <= 0);
        }
        sum += a.bits();
    }
    assert_eq!(sum, 0);
    assert!(m.converged);
}

#[test]
fn solver_is_deterministic() {
    let (kernel, targets) = line_kernel();
    let p = params();
    let m1 = fit_c(&p, &kernel, &targets, fx(1.0), fx(1.0)).unwrap();
    let m2 = fit_c(&p, &kernel, &targets, fx(1.0), fx(1.0)).unwrap();
    assert_eq!(m1.rho, m2.rho);
    assert_eq!(m1.obj, m2.obj);
    assert_eq!(m1.converged, m2.converged);
    for (a, b) in m1.alpha.iter().zip(m2.alpha.iter()) {
        assert_eq!(a, b);
    }
    let n1 = fit_nu(&p, &kernel, &targets, fx(0.5)).unwrap();
    let n2 = fit_nu(&p, &kernel, &targets, fx(0.5)).unwrap();
    assert_eq!(n1.rho, n2.rho);
    assert_eq!(n1.r.unwrap(), n2.r.unwrap());
    for (a, b) in n1.alpha.iter().zip(n2.alpha.iter()) {
        assert_eq!(a, b);
    }
}
