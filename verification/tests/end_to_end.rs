use linfa_svm::classification::{fit_c, fit_nu, fit_one_class};
use linfa_svm::fixed::{Fx, SCALE};
use linfa_svm::kernel::Kernel;
use linfa_svm::solver::{SolverParams, SvmResult};

fn fx(x: f64) -> Fx {
    Fx::from_bits((x * SCALE as f64).round() as i64)
}

fn params() -> SolverParams {
    SolverParams { eps: fx(1e-3), shrinking: false }
}

/// Small deterministic generator of uniform values in [0, 1).
struct Uniform(u64);

impl Uniform {
    fn next(&mut self) -> f64 {
        self.0 = self.0.wrapping_mul(6364136223846793005).wrapping_add(1442695040888963407);
        (self.0 >> 11) as f64 / (1u64 << 53) as f64
    }

    fn in_range(&mut self, lo: f64, hi: f64) -> f64 {
        lo + (hi - lo) * self.next()
    }
}

fn dot(a: &[f64], b: &[f64]) -> f64 {
    a.iter().zip(b.iter()).map(|(x, y)| x * y).sum()
}

fn linear_kernel(data: &[Vec<f64>]) -> Kernel {
    let n = data.len();
    let mut vals = Vec::new();
    for a in data {
        for b in data {
            vals.push(fx(dot(a, b)));
        }
    }
    Kernel::new(n, vals).unwrap()
}

fn polynomial(a: &[f64], b: &[f64], c: f64, d: f64) -> f64 {
    (dot(a, b) + c).powf(d)
}

fn polynomial_kernel(data: &[Vec<f64>], c: f64, d: f64) -> Kernel {
    let n = data.len();
    let mut vals = Vec::new();
    for a in data {
        for b in data {
            vals.push(fx(polynomial(a, b, c, d)));
        }
    }
    Kernel::new(n, vals).unwrap()
}

fn gaussian(a: &[f64], b: &[f64], eps: f64) -> f64 {
    let d2: f64 = a.iter().zip(b.iter()).map(|(x, y)| (x - y) * (x - y)).sum();
    (-d2 / eps).exp()
}

fn gaussian_kernel(data: &[Vec<f64>], eps: f64) -> Kernel {
    let n = data.len();
    let mut vals = Vec::new();
    for a in data {
        for b in data {
            vals.push(fx(gaussian(a, b, eps)));
        }
    }
    Kernel::new(n, vals).unwrap()
}

fn predict_with<F: Fn(&[f64]) -> f64>(model: &SvmResult, data: &[Vec<f64>], k: F) -> f64 {
    let col: Vec<Fx> = data.iter().map(|xi| fx(k(xi))).collect();
    model.predict(&col).bits() as f64 / SCALE as f64
}

#[test]
fn test_linear_classification() {
    let mut rng = Uniform(42);
    let mut entries: Vec<Vec<f64>> = Vec::new();
    for _ in 0..10 {
        entries.push(vec![rng.in_range(-1.0, -0.5), rng.in_range(-1.0, -0.5)]);
    }
    for _ in 0..10 {
        entries.push(vec![rng.in_range(0.5, 1.0), rng.in_range(0.5, 1.0)]);
    }
    let targets: Vec<bool> = (0..20).map(|x| x < 10).collect();
    let kernel = linear_kernel(&entries);
    let p = params();

    // C support vector classification.
    let svc = fit_c(&p, &kernel, &targets, fx(1.0), fx(1.0)).unwrap();
    assert!(svc.converged);
    let mut correct: usize = 0;
    for (x, t) in entries.iter().zip(targets.iter()) {
        let pred = predict_with(&svc, &entries, |xi| dot(xi, x)) > 0.0;
        if pred == *t {
            correct += 1;
        }
    }
    assert_eq!(correct, 20usize);

    // Nu support vector classification.
    let svc = fit_nu(&p, &kernel, &targets, fx(0.01)).unwrap();
    assert!(svc.converged);
    assert!(svc.r.unwrap().bits() > 0);
    let mut correct: usize = 0;
    for (x, t) in entries.iter().zip(targets.iter()) {
        let pred = predict_with(&svc, &entries, |xi| dot(xi, x)) > 0.0;
        if pred == *t {
            correct += 1;
        }
    }
    assert_eq!(correct, 20usize);
}

#[test]
fn test_polynomial_classification() {
    // A parabola: the middle band is the positive class, the outer arms
    // the negative one.
    let mut rng = Uniform(7);
    let dataset: Vec<Vec<f64>> = (0..40).map(|_| vec![rng.in_range(-2.0, 2.0)]).collect();
    let targets: Vec<bool> = dataset.iter().map(|x| x[0] * x[0] < 0.5).collect();
    let kernel = polynomial_kernel(&dataset, 0.0, 2.0);
    let p = params();

    let svc = fit_c(&p, &kernel, &targets, fx(1.0), fx(1.0)).unwrap();
    let mut correct: usize = 0;
    for (x, t) in dataset.iter().zip(targets.iter()) {
        let pred = predict_with(&svc, &dataset, |xi| polynomial(xi, x, 0.0, 2.0)) > 0.0;
        if pred == *t {
            correct += 1;
        }
    }
    assert!(correct as f64 / 40.0 > 0.9);

    let svc = fit_nu(&p, &kernel, &targets, fx(0.01)).unwrap();
    let mut correct: usize = 0;
    for (x, t) in dataset.iter().zip(targets.iter()) {
        let pred = predict_with(&svc, &dataset, |xi| polynomial(xi, x, 0.0, 2.0)) > 0.0;
        if pred == *t {
            correct += 1;
        }
    }
    assert!(correct as f64 / 40.0 > 0.9);
}

fn generate_convoluted_rings(n_points: usize, rng: &mut Uniform) -> Vec<Vec<f64>> {
    let mut out = Vec::new();
    for i in 0..n_points * 2 {
        let phi = 6.28 * rng.next();
        let eps = rng.next() / 10.0;
        let radius = if i < n_points { 1.0 } else { 5.0 };
        out.push(vec![radius * phi.cos() + eps, radius * phi.sin() + eps]);
    }
    out
}

#[test]
fn test_convoluted_rings_classification() {
    let mut rng = Uniform(1234);
    let dataset = generate_convoluted_rings(10, &mut rng);
    let targets: Vec<bool> = (0..20).map(|x| x < 10).collect();
    let kernel = gaussian_kernel(&dataset, 50.0);
    let p = params();

    let svc = fit_c(&p, &kernel, &targets, fx(1.0), fx(1.0)).unwrap();
    let mut correct: usize = 0;
    for (x, t) in dataset.iter().zip(targets.iter()) {
        let pred = predict_with(&svc, &dataset, |xi| gaussian(xi, x, 50.0)) > 0.0;
        if pred == *t {
            correct += 1;
        }
    }
    assert_eq!(correct, 20usize);

    let svc = fit_nu(&p, &kernel, &targets, fx(0.01)).unwrap();
    let mut correct: usize = 0;
    for (x, t) in dataset.iter().zip(targets.iter()) {
        let pred = predict_with(&svc, &dataset, |xi| gaussian(xi, x, 50.0)) > 0.0;
        if pred == *t {
            correct += 1;
        }
    }
    assert_eq!(correct, 20usize);
}

#[test]
fn test_reject_classification() {
    // Train on points inside a box around the origin, then check that
    // points far outside are rejected.
    let mut rng = Uniform(99);
    let entries: Vec<Vec<f64>> = (0..100)
        .map(|_| vec![rng.in_range(-4.0, 4.0), rng.in_range(-4.0, 4.0)])
        .collect();
    let kernel = gaussian_kernel(&entries, 100.0);
    let p = params();

    let svc = fit_one_class(&p, &kernel, fx(0.1)).unwrap();
    assert!(svc.converged);

    let validation: Vec<Vec<f64>> = (0..100)
        .map(|_| vec![rng.in_range(-10.0, 10.0), rng.in_range(-10.0, 10.0)])
        .collect();
    let mut rejected: usize = 0;
    let mut total: usize = 0;
    for pos in validation.iter() {
        let pred = predict_with(&svc, &entries, |xi| gaussian(xi, pos, 100.0)) > 0.0;
        let distance = (pos[0] * pos[0] + pos[1] * pos[1]).sqrt();
        if distance >= 5.0 {
            if !pred {
                rejected += 1;
            }
            total += 1;
        }
    }
    assert!(rejected as f64 / total as f64 > 0.95);
}
