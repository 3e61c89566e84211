//! The sequential-minimal-optimization solver for the dual quadratic
//! program
//!
//! ```text
//! min_a 1/2 a^T Q a + p^T a   s.t.   sum_i y_i a_i = const,  0 <= a_i <= bound_i
//! ```
//!
//! The solver repeatedly selects a maximally KKT-violating pair of
//! coefficients, moves the pair to the constrained optimum of the
//! two-variable subproblem, and updates the gradient incrementally. Every
//! step keeps the coefficient vector inside its box and preserves the signed
//! sum `sum_i y_i a_i` exactly, which is what the contracts state; a
//! maximum-iteration safety valve guarantees termination with a best-effort
//! result even when rounding keeps the violation measure above the
//! tolerance.

use vstd::prelude::*;
use vstd::pervasive::VecAdditionalExecFns;

use crate::fixed::{fx_add, fx_div, fx_mul, fx_neg, fx_sub, sat64, Fx, SCALE};
use crate::kernel::PermKernel;
use crate::sums::{lemma_signed_sum_update, sgn, signed_sum};

verus! {

/// Largest admissible box bound, in fixed-point units. Keeping bounds below
/// this lets every two-variable update be carried out in exact (never
/// saturating) arithmetic.
pub const MAX_ALPHA_BITS: i64 = 0x1000_0000_0000_0000;

/// Fallback curvature for a numerically non-positive-definite pair, in
/// fixed-point units.
pub const TAU_BITS: i64 = 16;

/// Immutable solver configuration: the convergence tolerance `eps` (must be
/// positive) and the active-set-shrinking toggle.
pub struct SolverParams {
    pub eps: Fx,
    pub shrinking: bool,
}

/// The converged (or best-effort) model: dual coefficients, bias term `rho`,
/// the Nu-formulation normalization `r` where applicable, the objective
/// value, and the convergence verdict. `converged` is true when, for the
/// gradient recomputed from scratch at the returned coefficients, no
/// eligible pair's score gap exceeds the tolerance; false means the
/// iteration cap cut the run short and the result is best-effort.
#[derive(Debug)]
pub struct SvmResult {
    pub alpha: Vec<Fx>,
    pub rho: Fx,
    pub r: Option<Fx>,
    pub obj: Fx,
    pub converged: bool,
}

/// Every coefficient lies inside its box: `0 <= a_i <= bound_i`.
pub open spec fn box_ok(a: Seq<Fx>, b: Seq<Fx>) -> bool {
    forall|i: int| 0 <= i < a.len() ==> 0 <= #[trigger] a[i]@ <= b[i]@
}

/// Every bound is admissible: `0 <= bound_i <= MAX_ALPHA_BITS`.
pub open spec fn bounds_ok(b: Seq<Fx>) -> bool {
    forall|i: int| 0 <= i < b.len() ==> 0 <= #[trigger] b[i]@ <= MAX_ALPHA_BITS
}

/// The working-set score of sample `k`: `-y_k * grad_k`, the gradient along
/// the feasible ascent direction of that sample.
pub open spec fn spec_score(g: Seq<Fx>, y: Seq<bool>, k: int) -> int {
    if y[k] {
        fx_neg(g[k]@)
    } else {
        g[k]@
    }
}

/// Whether sample `t` is in the working set and, when selection is
/// restricted to one class, carries that label.
pub open spec fn considered_spec(y: Seq<bool>, active: Seq<bool>, restrict: Option<bool>, t: int) -> bool {
    active[t] && match restrict {
        Some(l) => y[t] == l,
        None => true,
    }
}

/// Whether a step that increases `alpha_t` along its label direction stays
/// inside the box.
pub open spec fn up_elig_spec(alpha: Seq<Fx>, bounds: Seq<Fx>, y: Seq<bool>, t: int) -> bool {
    if y[t] {
        alpha[t]@ < bounds[t]@
    } else {
        alpha[t]@ > 0
    }
}

/// Whether a step that decreases `alpha_t` along its label direction stays
/// inside the box.
pub open spec fn low_elig_spec(alpha: Seq<Fx>, bounds: Seq<Fx>, y: Seq<bool>, t: int) -> bool {
    if y[t] {
        alpha[t]@ > 0
    } else {
        alpha[t]@ < bounds[t]@
    }
}

/// Whether sample `t` carries the label that selection is restricted to.
pub open spec fn label_match(y: Seq<bool>, restrict: Option<bool>, t: int) -> bool {
    match restrict {
        Some(l) => y[t] == l,
        None => true,
    }
}

/// The eps-approximate optimality conditions over the whole index set: no
/// pair of an up-eligible sample `t` and a low-eligible sample `u` (of the
/// restricted label, where one applies) violates the gradient ordering by
/// more than `eps`.
pub open spec fn kkt_within(
    g: Seq<Fx>,
    alpha: Seq<Fx>,
    bounds: Seq<Fx>,
    y: Seq<bool>,
    restrict: Option<bool>,
    eps: int,
) -> bool {
    forall|t: int, u: int|
        0 <= t < alpha.len() && 0 <= u < alpha.len() && label_match(y, restrict, t) && label_match(
            y,
            restrict,
            u,
        ) && up_elig_spec(alpha, bounds, y, t) && low_elig_spec(alpha, bounds, y, u) ==> fx_sub(
            #[trigger] spec_score(g, y, t),
            #[trigger] spec_score(g, y, u),
        ) <= eps
}

/// The saturating dot product `sum_{i<m} a_i * k_i`, accumulated left to
/// right exactly as the executable decision function computes it.
pub open spec fn decision_sum(a: Seq<Fx>, k: Seq<Fx>, m: int) -> int
    decreases m,
{
    if m <= 0 {
        0
    } else {
        fx_add(decision_sum(a, k, m - 1), fx_mul(a[m - 1]@, k[m - 1]@))
    }
}

impl SvmResult {
    /// The decision function: `sum_i alpha_i * kcol_i - rho`, where `kcol`
    /// holds the kernel values of the query point against every training
    /// sample. A positive value means the positive class (binary) or an
    /// inlier (one-class). Pure: the result is a function of the model and
    /// the column alone.
    pub fn predict(&self, kcol: &Vec<Fx>) -> (r: Fx)
        requires
            kcol@.len() == self.alpha@.len(),
        ensures
            r@ == fx_sub(
                decision_sum(self.alpha@, kcol@, self.alpha@.len() as int),
                self.rho@,
            ),
    {
        let n = self.alpha.len();
        let mut acc = Fx::zero();
        let mut k: usize = 0;
        while k < n
            invariant
                k <= n,
                n == self.alpha@.len(),
                kcol@.len() == n,
                acc@ == decision_sum(self.alpha@, kcol@, k as int),
            decreases n - k,
        {
            acc = acc.add(self.alpha[k].mul(kcol[k]));
            k += 1;
        }
        acc.sub(self.rho)
    }
}

/// The gradient entry `t` after the initialization pass has folded in the
/// contribution of the first `rows` coefficients: starting from the linear
/// term, each nonzero coefficient `a_i` adds `a_i * Q_it`, in row order.
pub open spec fn init_grad<K: PermKernel>(
    kernel: K,
    p: Seq<Fx>,
    alpha: Seq<Fx>,
    rows: int,
    t: int,
) -> int
    decreases rows,
{
    if rows <= 0 {
        p[t]@
    } else if alpha[rows - 1]@ != 0 {
        fx_add(
            init_grad(kernel, p, alpha, rows - 1, t),
            fx_mul(alpha[rows - 1]@, kernel.q(rows - 1, t)),
        )
    } else {
        init_grad(kernel, p, alpha, rows - 1, t)
    }
}

/// Every value the gradient fold produces fits a 64-bit word: the base is
/// a stored coefficient and every later step ends in saturation.
pub proof fn lemma_init_grad_fits<K: PermKernel>(
    kernel: K,
    p: Seq<Fx>,
    alpha: Seq<Fx>,
    rows: int,
    t: int,
)
    requires
        0 <= t < p.len(),
    ensures
        i64::MIN <= init_grad(kernel, p, alpha, rows, t) <= i64::MAX,
    decreases rows,
{
    if rows > 0 {
        lemma_init_grad_fits(kernel, p, alpha, rows - 1, t);
    }
}

/// The whole gradient recomputed from scratch at the coefficients `alpha`:
/// one consistency pass, entry by entry.
pub open spec fn final_grad<K: PermKernel>(kernel: K, p: Seq<Fx>, alpha: Seq<Fx>) -> Seq<Fx> {
    Seq::new(
        alpha.len(),
        |t: int| Fx { bits: init_grad(kernel, p, alpha, alpha.len() as int, t) as i64 },
    )
}

/// The same gradient fold over an arbitrary effective matrix given as a
/// specification-level function, so that callers can state the gradient of
/// a formulation without naming the adapter value.
pub open spec fn grad_q(
    q: spec_fn(int, int) -> int,
    p: Seq<Fx>,
    alpha: Seq<Fx>,
    rows: int,
    t: int,
) -> int
    decreases rows,
{
    if rows <= 0 {
        p[t]@
    } else if alpha[rows - 1]@ != 0 {
        fx_add(grad_q(q, p, alpha, rows - 1, t), fx_mul(alpha[rows - 1]@, q(rows - 1, t)))
    } else {
        grad_q(q, p, alpha, rows - 1, t)
    }
}

/// The whole recomputed gradient over an effective matrix given as a
/// specification-level function.
pub open spec fn grad_q_seq(q: spec_fn(int, int) -> int, p: Seq<Fx>, alpha: Seq<Fx>) -> Seq<Fx> {
    Seq::new(alpha.len(), |t: int| Fx { bits: grad_q(q, p, alpha, alpha.len() as int, t) as i64 })
}

/// The two gradient folds agree wherever the adapter's matrix and the
/// specification-level matrix agree.
pub proof fn lemma_grad_q_agrees<K: PermKernel>(
    kernel: K,
    q: spec_fn(int, int) -> int,
    p: Seq<Fx>,
    alpha: Seq<Fx>,
    rows: int,
    t: int,
)
    requires
        rows <= alpha.len(),
        0 <= t < alpha.len(),
        forall|i: int, j: int|
            0 <= i < alpha.len() && 0 <= j < alpha.len() ==> #[trigger] kernel.q(i, j) == q(i, j),
    ensures
        init_grad(kernel, p, alpha, rows, t) == grad_q(q, p, alpha, rows, t),
    decreases rows,
{
    if rows > 0 {
        lemma_grad_q_agrees(kernel, q, p, alpha, rows - 1, t);
    }
}

/// Sequence form of the agreement above.
pub proof fn lemma_grad_seq_agrees<K: PermKernel>(
    kernel: K,
    q: spec_fn(int, int) -> int,
    p: Seq<Fx>,
    alpha: Seq<Fx>,
)
    requires
        p.len() == alpha.len(),
        forall|i: int, j: int|
            0 <= i < alpha.len() && 0 <= j < alpha.len() ==> #[trigger] kernel.q(i, j) == q(i, j),
    ensures
        final_grad(kernel, p, alpha) == grad_q_seq(q, p, alpha),
{
    assert forall|t: int| 0 <= t < alpha.len() implies final_grad(kernel, p, alpha)[t] == grad_q_seq(
        q,
        p,
        alpha,
    )[t] by {
        lemma_grad_q_agrees(kernel, q, p, alpha, alpha.len() as int, t);
    }
    assert(final_grad(kernel, p, alpha) =~= grad_q_seq(q, p, alpha));
}

/// The optimizer state: the coefficient vector `alpha`, its gradient, the
/// linear term `p`, the labels, the box bounds, the effective kernel, and
/// the configuration.
pub struct SolverState<'a, K: PermKernel> {
    pub alpha: Vec<Fx>,
    pub grad: Vec<Fx>,
    pub p: Vec<Fx>,
    pub y: Vec<bool>,
    pub kernel: K,
    pub bounds: Vec<Fx>,
    pub params: &'a SolverParams,
    pub nu_mode: bool,
}

impl<'a, K: PermKernel> SolverState<'a, K> {
    /// The state is consistent: all vectors have the kernel's size, the
    /// bounds are admissible, the coefficients are inside their box, and the
    /// tolerance is positive.
    pub open spec fn wf(&self) -> bool {
        &&& self.kernel.wf()
        &&& self.alpha@.len() == self.kernel.sz()
        &&& self.grad@.len() == self.kernel.sz()
        &&& self.p@.len() == self.kernel.sz()
        &&& self.y@.len() == self.kernel.sz()
        &&& self.bounds@.len() == self.kernel.sz()
        &&& self.kernel.sz() >= 1
        &&& bounds_ok(self.bounds@)
        &&& box_ok(self.alpha@, self.bounds@)
        &&& self.params.eps@ > 0
    }

    /// Assemble a solver over an initial coefficient vector, a linear term,
    /// labels, an effective kernel, box bounds and a configuration. The
    /// gradient is initialized to `p_i + sum_j Q_ij alpha_j`, one pass that
    /// folds the initial coefficients' contribution in.
    pub fn new(
        alpha: Vec<Fx>,
        p: Vec<Fx>,
        targets: Vec<bool>,
        kernel: K,
        bounds: Vec<Fx>,
        params: &'a SolverParams,
        nu_mode: bool,
    ) -> (r: SolverState<'a, K>)
        requires
            kernel.wf(),
            kernel.sz() >= 1,
            alpha@.len() == kernel.sz(),
            p@.len() == kernel.sz(),
            targets@.len() == kernel.sz(),
            bounds@.len() == kernel.sz(),
            bounds_ok(bounds@),
            box_ok(alpha@, bounds@),
            params.eps@ > 0,
        ensures
            r.wf(),
            r.alpha == alpha,
            r.p == p,
            r.y == targets,
            r.kernel == kernel,
            r.bounds == bounds,
            r.params == params,
            r.nu_mode == nu_mode,
            r.grad@ == final_grad(kernel, p@, alpha@),
    {
        let grad = recompute_grad(&kernel, &p, &alpha);
        SolverState { alpha, grad, p, y: targets, kernel, bounds, params, nu_mode }
    }

    /// Run the optimization to convergence (or to the iteration cap) and
    /// return the result. Whatever path the iteration takes, the returned
    /// coefficients are inside their box and carry exactly the signed sum
    /// `sum_i y_i a_i` of the initial coefficients: the solver moves along
    /// the equality-constraint hyperplane and never leaves it. The bias,
    /// the normalization, the objective and the convergence verdict are all
    /// computed from the gradient recomputed from scratch at the returned
    /// coefficients, so each is the stated function of that final state:
    /// `converged` means no eligible pair violates optimality by more than
    /// the tolerance (per class in nu mode), and its negation means the
    /// iteration cap cut the run short.
    pub fn solve(self) -> (res: SvmResult)
        requires
            self.wf(),
        ensures
            res.alpha@.len() == self.alpha@.len(),
            box_ok(res.alpha@, self.bounds@),
            signed_sum(res.alpha@, self.y@) == signed_sum(self.alpha@, self.y@),
            (res.r is Some) == self.nu_mode,
            res.converged ==> ({
                let fg = final_grad(self.kernel, self.p@, res.alpha@);
                if self.nu_mode {
                    kkt_within(fg, res.alpha@, self.bounds@, self.y@, Some(true), self.params.eps@)
                        && kkt_within(
                        fg,
                        res.alpha@,
                        self.bounds@,
                        self.y@,
                        Some(false),
                        self.params.eps@,
                    )
                } else {
                    kkt_within(fg, res.alpha@, self.bounds@, self.y@, None, self.params.eps@)
                }
            }),
            res.rho@ == ({
                let fg = final_grad(self.kernel, self.p@, res.alpha@);
                if self.nu_mode {
                    fx_mul(
                        fx_sub(
                            margin_val(fg, res.alpha@, self.bounds@, self.y@, true),
                            margin_val(fg, res.alpha@, self.bounds@, self.y@, false),
                        ),
                        SCALE as int / 2,
                    )
                } else {
                    rho_val(fg, res.alpha@, self.bounds@, self.y@)
                }
            }),
            match res.r {
                Some(rv) => rv@ == ({
                    let fg = final_grad(self.kernel, self.p@, res.alpha@);
                    fx_mul(
                        fx_add(
                            margin_val(fg, res.alpha@, self.bounds@, self.y@, true),
                            margin_val(fg, res.alpha@, self.bounds@, self.y@, false),
                        ),
                        SCALE as int / 2,
                    )
                }),
                None => true,
            },
            res.obj@ == fx_mul(
                obj_sum(
                    res.alpha@,
                    final_grad(self.kernel, self.p@, res.alpha@),
                    self.p@,
                    res.alpha@.len() as int,
                ),
                SCALE as int / 2,
            ),
    {
        let SolverState { mut alpha, mut grad, p, y, kernel, bounds, params, nu_mode } = self;
        let ghost init_alpha = alpha@;
        let n = kernel.size();
        let eps = params.eps;
        let mut active: Vec<bool> = Vec::new();
        let mut k: usize = 0;
        while k < n
            invariant
                k <= n,
                active@.len() == k,
                forall|t: int| 0 <= t < k ==> #[trigger] active@[t],
            decreases n - k,
        {
            active.push(true);
            k += 1;
        }
        let max_iter: usize = if n < 100000 {
            n * 1000 + 100000
        } else {
            100000000
        };
        let mut since_shrink: usize = 0;
        let mut iter: usize = 0;
        while iter < max_iter
            invariant
                n == kernel.sz(),
                kernel.wf(),
                1 <= n,
                alpha@.len() == n,
                grad@.len() == n,
                p@.len() == n,
                y@.len() == n,
                bounds@.len() == n,
                active@.len() == n,
                bounds_ok(bounds@),
                box_ok(alpha@, bounds@),
                signed_sum(alpha@, y@) == signed_sum(init_alpha, y@),
                eps@ > 0,
            decreases max_iter - iter,
        {
            iter += 1;
            if params.shrinking {
                if since_shrink >= 999 {
                    since_shrink = 0;
                    shrink(&grad, &alpha, &bounds, &y, &mut active);
                } else {
                    since_shrink += 1;
                }
            }
            let sel: Option<(usize, usize)> = if nu_mode {
                let sp = select_pair(&grad, &alpha, &bounds, &y, &active, Some(true), eps);
                let sn = select_pair(&grad, &alpha, &bounds, &y, &active, Some(false), eps);
                match (sp, sn) {
                    (Some((i1, j1, g1)), Some((i2, j2, g2))) => if g2.lt(g1) {
                        Some((i1, j1))
                    } else {
                        Some((i2, j2))
                    },
                    (Some((i1, j1, _)), None) => Some((i1, j1)),
                    (None, Some((i2, j2, _))) => Some((i2, j2)),
                    (None, None) => None,
                }
            } else {
                match select_pair(&grad, &alpha, &bounds, &y, &active, None, eps) {
                    Some((i, j, _)) => Some((i, j)),
                    None => None,
                }
            };
            match sel {
                None => {
                    if all_true(&active) {
                        // The running gradient carries rounding from the
                        // incremental updates: refresh it from scratch and
                        // stop only if the refreshed gradient also shows no
                        // violating pair.
                        grad = recompute_grad(&kernel, &p, &alpha);
                        let again: bool = if nu_mode {
                            select_pair(&grad, &alpha, &bounds, &y, &active, Some(true), eps)
                                .is_some() || select_pair(
                                &grad,
                                &alpha,
                                &bounds,
                                &y,
                                &active,
                                Some(false),
                                eps,
                            ).is_some()
                        } else {
                            select_pair(&grad, &alpha, &bounds, &y, &active, None, eps).is_some()
                        };
                        if !again {
                            break ;
                        }
                    } else {
                        // The active set converged while samples were shrunk
                        // away: reconsider everything before declaring victory.
                        let mut t: usize = 0;
                        while t < n
                            invariant
                                t <= n,
                                active@.len() == n,
                            decreases n - t,
                        {
                            active.set(t, true);
                            t += 1;
                        }
                        since_shrink = 0;
                    }
                },
                Some((i, j)) => {
                    let moved = do_step(&kernel, &y, &bounds, &mut alpha, &mut grad, i, j);
                    if !moved {
                        // Numerically negligible step: set the pair aside so
                        // selection falls back to an alternative.
                        active.set(i, false);
                    }
                },
            }
        }
        // Everything reported below comes from a gradient recomputed from
        // scratch at the final coefficients, so that each output is the
        // stated function of the final state, free of incremental rounding.
        let rg = recompute_grad(&kernel, &p, &alpha);
        let mut allact: Vec<bool> = Vec::new();
        let mut k3: usize = 0;
        while k3 < n
            invariant
                k3 <= n,
                allact@.len() == k3,
                forall|t: int| 0 <= t < k3 ==> #[trigger] allact@[t],
            decreases n - k3,
        {
            allact.push(true);
            k3 += 1;
        }
        let converged: bool;
        if nu_mode {
            let cp = select_pair(&rg, &alpha, &bounds, &y, &allact, Some(true), eps);
            let cn = select_pair(&rg, &alpha, &bounds, &y, &allact, Some(false), eps);
            converged = cp.is_none() && cn.is_none();
            proof {
                if converged {
                    lemma_select_none_kkt(rg@, alpha@, bounds@, y@, allact@, Some(true), eps@);
                    lemma_select_none_kkt(rg@, alpha@, bounds@, y@, allact@, Some(false), eps@);
                }
            }
        } else {
            let c0 = select_pair(&rg, &alpha, &bounds, &y, &allact, None, eps);
            converged = c0.is_none();
            proof {
                if converged {
                    lemma_select_none_kkt(rg@, alpha@, bounds@, y@, allact@, None, eps@);
                }
            }
        }
        let (rho, r) = if nu_mode {
            let (rho, rr) = calculate_rho_nu(&rg, &alpha, &bounds, &y);
            (rho, Some(rr))
        } else {
            (calculate_rho(&rg, &alpha, &bounds, &y), None)
        };
        let obj = objective(&alpha, &rg, &p);
        SvmResult { alpha, rho, r, obj, converged }
    }
}

/// Over an all-active working set, the pair-wise statement that
/// `select_pair` establishes on returning `None` is exactly `kkt_within`.
proof fn lemma_select_none_kkt(
    g: Seq<Fx>,
    alpha: Seq<Fx>,
    bounds: Seq<Fx>,
    y: Seq<bool>,
    active: Seq<bool>,
    restrict: Option<bool>,
    eps: int,
)
    requires
        active.len() == alpha.len(),
        forall|t: int| 0 <= t < active.len() ==> #[trigger] active[t],
        forall|t: int, u: int|
            0 <= t < alpha.len() && 0 <= u < alpha.len() && #[trigger] considered_spec(
                y,
                active,
                restrict,
                t,
            ) && #[trigger] considered_spec(y, active, restrict, u) && up_elig_spec(
                alpha,
                bounds,
                y,
                t,
            ) && low_elig_spec(alpha, bounds, y, u) ==> fx_sub(
                spec_score(g, y, t),
                spec_score(g, y, u),
            ) <= eps,
    ensures
        kkt_within(g, alpha, bounds, y, restrict, eps),
{
    assert forall|t: int, u: int|
        0 <= t < alpha.len() && 0 <= u < alpha.len() && label_match(y, restrict, t) && label_match(
            y,
            restrict,
            u,
        ) && up_elig_spec(alpha, bounds, y, t) && low_elig_spec(alpha, bounds, y, u) implies fx_sub(
        #[trigger] spec_score(g, y, t),
        #[trigger] spec_score(g, y, u),
    ) <= eps by {
        assert(considered_spec(y, active, restrict, t));
        assert(considered_spec(y, active, restrict, u));
    }
}

/// The saturating accumulation `sum_{k<m} a_k * (g_k + p_k)`, left to
/// right, exactly as the executable objective pass computes it.
pub open spec fn obj_sum(a: Seq<Fx>, g: Seq<Fx>, p: Seq<Fx>, m: int) -> int
    decreases m,
{
    if m <= 0 {
        0
    } else {
        fx_add(obj_sum(a, g, p, m - 1), fx_mul(a[m - 1]@, fx_add(g[m - 1]@, p[m - 1]@)))
    }
}

/// The objective value `1/2 sum_k alpha_k * (grad_k + p_k)`, one linear
/// pass over the final gradient — no quadratic-form recomputation.
fn objective(alpha: &Vec<Fx>, grad: &Vec<Fx>, p: &Vec<Fx>) -> (r: Fx)
    requires
        grad@.len() == alpha@.len(),
        p@.len() == alpha@.len(),
    ensures
        r@ == fx_mul(obj_sum(alpha@, grad@, p@, alpha@.len() as int), SCALE as int / 2),
{
    let n = alpha.len();
    let mut acc = Fx::zero();
    let mut k: usize = 0;
    while k < n
        invariant
            k <= n,
            n == alpha@.len(),
            grad@.len() == n,
            p@.len() == n,
            acc@ == obj_sum(alpha@, grad@, p@, k as int),
        decreases n - k,
    {
        acc = acc.add(alpha[k].mul(grad[k].add(p[k])));
        k += 1;
    }
    acc.mul(Fx::from_bits(SCALE / 2))
}

/// Recompute the gradient from scratch at the coefficients `alpha`:
/// `G_t = p_t + sum_i alpha_i * Q_it`, folded row by row exactly as
/// `final_grad` states.
fn recompute_grad<K: PermKernel>(kernel: &K, p: &Vec<Fx>, alpha: &Vec<Fx>) -> (r: Vec<Fx>)
    requires
        kernel.wf(),
        alpha@.len() == kernel.sz(),
        p@.len() == kernel.sz(),
    ensures
        r@.len() == alpha@.len(),
        r@ == final_grad(*kernel, p@, alpha@),
{
    let n = kernel.size();
    let mut grad: Vec<Fx> = Vec::new();
    let mut k: usize = 0;
    while k < n
        invariant
            k <= n,
            n == kernel.sz(),
            p@.len() == n,
            grad@.len() == k,
            forall|t: int| 0 <= t < k ==> #[trigger] grad@[t] == p@[t],
        decreases n - k,
    {
        grad.push(p[k]);
        k += 1;
    }
    proof {
        assert forall|t: int| 0 <= t < n implies #[trigger] grad@[t]@ == init_grad(
            *kernel,
            p@,
            alpha@,
            0,
            t,
        ) by {
            reveal_with_fuel(init_grad, 1);
        }
    }
    let mut i: usize = 0;
    while i < n
        invariant
            i <= n,
            n == kernel.sz(),
            kernel.wf(),
            alpha@.len() == n,
            p@.len() == n,
            grad@.len() == n,
            forall|t: int|
                0 <= t < n ==> #[trigger] grad@[t]@ == init_grad(*kernel, p@, alpha@, i as int, t),
        decreases n - i,
    {
        let ghost gi = grad@;
        if alpha[i].bits() != 0 {
            let qrow = kernel.row(i);
            let ai = alpha[i];
            let mut j: usize = 0;
            while j < n
                invariant
                    j <= n,
                    n == kernel.sz(),
                    kernel.wf(),
                    i < n,
                    alpha@.len() == n,
                    p@.len() == n,
                    grad@.len() == n,
                    gi.len() == n,
                    qrow@.len() == n,
                    ai == alpha@[i as int],
                    ai@ != 0,
                    forall|t: int| 0 <= t < n ==> #[trigger] qrow@[t]@ == kernel.q(i as int, t),
                    forall|t: int| j <= t < n ==> #[trigger] grad@[t] == gi[t],
                    forall|t: int|
                        0 <= t < n ==> #[trigger] gi[t]@ == init_grad(
                            *kernel,
                            p@,
                            alpha@,
                            i as int,
                            t,
                        ),
                    forall|t: int|
                        0 <= t < j ==> #[trigger] grad@[t]@ == fx_add(
                            gi[t]@,
                            fx_mul(ai@, kernel.q(i as int, t)),
                        ),
                decreases n - j,
            {
                let g = grad[j].add(ai.mul(qrow[j]));
                grad.set(j, g);
                j += 1;
            }
            proof {
                assert forall|t: int| 0 <= t < n implies #[trigger] grad@[t]@ == init_grad(
                    *kernel,
                    p@,
                    alpha@,
                    i as int + 1,
                    t,
                ) by {
                    reveal_with_fuel(init_grad, 2);
                }
            }
        } else {
            proof {
                assert forall|t: int| 0 <= t < n implies #[trigger] grad@[t]@ == init_grad(
                    *kernel,
                    p@,
                    alpha@,
                    i as int + 1,
                    t,
                ) by {
                    reveal_with_fuel(init_grad, 2);
                }
            }
        }
        i += 1;
    }
    proof {
        assert forall|t: int| 0 <= t < n implies grad@[t] == final_grad(*kernel, p@, alpha@)[t] by {
            lemma_init_grad_fits(*kernel, p@, alpha@, n as int, t);
            assert(grad@[t]@ == init_grad(*kernel, p@, alpha@, n as int, t));
            assert(grad@[t] == Fx { bits: init_grad(*kernel, p@, alpha@, n as int, t) as i64 });
        }
        assert(grad@ =~= final_grad(*kernel, p@, alpha@));
    }
    grad
}

/// Whether every sample is in the working set.
fn all_true(v: &Vec<bool>) -> (r: bool)
    ensures
        r == (forall|i: int| 0 <= i < v@.len() ==> #[trigger] v@[i]),
{
    let n = v.len();
    let mut i: usize = 0;
    while i < n
        invariant
            i <= n,
            n == v@.len(),
            forall|t: int| 0 <= t < i ==> #[trigger] v@[t],
        decreases n - i,
    {
        if !v[i] {
            return false;
        }
        i += 1;
    }
    true
}

/// Whether a step that increases `alpha_k` along its label direction stays
/// feasible.
fn up_eligible(alpha: &Vec<Fx>, bounds: &Vec<Fx>, y: &Vec<bool>, k: usize) -> (r: bool)
    requires
        k < alpha@.len(),
        alpha@.len() == bounds@.len(),
        alpha@.len() == y@.len(),
    ensures
        r == up_elig_spec(alpha@, bounds@, y@, k as int),
{
    if y[k] {
        alpha[k].lt(bounds[k])
    } else {
        Fx::zero().lt(alpha[k])
    }
}

/// Whether a step that decreases `alpha_k` along its label direction stays
/// feasible.
fn low_eligible(alpha: &Vec<Fx>, bounds: &Vec<Fx>, y: &Vec<bool>, k: usize) -> (r: bool)
    requires
        k < alpha@.len(),
        alpha@.len() == bounds@.len(),
        alpha@.len() == y@.len(),
    ensures
        r == low_elig_spec(alpha@, bounds@, y@, k as int),
{
    if y[k] {
        Fx::zero().lt(alpha[k])
    } else {
        alpha[k].lt(bounds[k])
    }
}

/// The working-set score `-y_k * grad_k`.
fn score(grad: &Vec<Fx>, y: &Vec<bool>, k: usize) -> (r: Fx)
    requires
        k < grad@.len(),
        grad@.len() == y@.len(),
    ensures
        r@ == spec_score(grad@, y@, k as int),
{
    if y[k] {
        grad[k].neg()
    } else {
        grad[k]
    }
}

/// Select a maximally violating pair among the working set: `i` with the
/// largest score among samples whose coefficient can still rise, `j` with
/// the smallest among those whose coefficient can still fall (ties go to
/// the lowest index). Returns the pair and the violation gap when the gap
/// exceeds the tolerance, and `None` — convergence over the working set —
/// otherwise. With `restrict` set, only samples of that label are
/// considered, which keeps the per-class sums of the Nu formulation intact.
fn select_pair(
    grad: &Vec<Fx>,
    alpha: &Vec<Fx>,
    bounds: &Vec<Fx>,
    y: &Vec<bool>,
    active: &Vec<bool>,
    restrict: Option<bool>,
    eps: Fx,
) -> (r: Option<(usize, usize, Fx)>)
    requires
        grad@.len() == alpha@.len(),
        bounds@.len() == alpha@.len(),
        y@.len() == alpha@.len(),
        active@.len() == alpha@.len(),
        eps@ > 0,
    ensures
        match r {
            Some((i, j, g)) => {
                &&& i < alpha@.len() && j < alpha@.len() && i != j
                &&& considered_spec(y@, active@, restrict, i as int)
                &&& considered_spec(y@, active@, restrict, j as int)
                &&& up_elig_spec(alpha@, bounds@, y@, i as int)
                &&& low_elig_spec(alpha@, bounds@, y@, j as int)
                &&& g@ == fx_sub(
                    spec_score(grad@, y@, i as int),
                    spec_score(grad@, y@, j as int),
                )
                &&& g@ > eps@
                &&& (forall|t: int|
                    0 <= t < alpha@.len() && #[trigger] considered_spec(y@, active@, restrict, t)
                        && up_elig_spec(alpha@, bounds@, y@, t) ==> spec_score(grad@, y@, t)
                        <= spec_score(grad@, y@, i as int))
                &&& (forall|t: int|
                    0 <= t < alpha@.len() && #[trigger] considered_spec(y@, active@, restrict, t)
                        && low_elig_spec(alpha@, bounds@, y@, t) ==> spec_score(grad@, y@, t)
                        >= spec_score(grad@, y@, j as int))
            },
            // Convergence over the working set: no considered eligible pair
            // violates the optimality conditions by more than the tolerance.
            None => forall|t: int, u: int|
                0 <= t < alpha@.len() && 0 <= u < alpha@.len() && #[trigger] considered_spec(
                    y@,
                    active@,
                    restrict,
                    t,
                ) && #[trigger] considered_spec(y@, active@, restrict, u) && up_elig_spec(
                    alpha@,
                    bounds@,
                    y@,
                    t,
                ) && low_elig_spec(alpha@, bounds@, y@, u) ==> fx_sub(
                    spec_score(grad@, y@, t),
                    spec_score(grad@, y@, u),
                ) <= eps@,
        },
{
    let n = alpha.len();
    let mut best_up: Option<usize> = None;
    let mut up_s = Fx::zero();
    let mut best_low: Option<usize> = None;
    let mut low_s = Fx::zero();
    let mut k: usize = 0;
    while k < n
        invariant
            k <= n,
            n == alpha@.len(),
            grad@.len() == n,
            bounds@.len() == n,
            y@.len() == n,
            active@.len() == n,
            match best_up {
                Some(i) => i < n && considered_spec(y@, active@, restrict, i as int)
                    && up_elig_spec(alpha@, bounds@, y@, i as int) && up_s@ == spec_score(
                    grad@,
                    y@,
                    i as int,
                ) && (forall|t: int|
                    0 <= t < k && #[trigger] considered_spec(y@, active@, restrict, t)
                        && up_elig_spec(alpha@, bounds@, y@, t) ==> spec_score(grad@, y@, t)
                        <= up_s@),
                None => forall|t: int|
                    0 <= t < k ==> !(#[trigger] considered_spec(y@, active@, restrict, t)
                        && up_elig_spec(alpha@, bounds@, y@, t)),
            },
            match best_low {
                Some(j) => j < n && considered_spec(y@, active@, restrict, j as int)
                    && low_elig_spec(alpha@, bounds@, y@, j as int) && low_s@ == spec_score(
                    grad@,
                    y@,
                    j as int,
                ) && (forall|t: int|
                    0 <= t < k && #[trigger] considered_spec(y@, active@, restrict, t)
                        && low_elig_spec(alpha@, bounds@, y@, t) ==> spec_score(grad@, y@, t)
                        >= low_s@),
                None => forall|t: int|
                    0 <= t < k ==> !(#[trigger] considered_spec(y@, active@, restrict, t)
                        && low_elig_spec(alpha@, bounds@, y@, t)),
            },
        decreases n - k,
    {
        let considered = active[k] && match restrict {
            Some(l) => y[k] == l,
            None => true,
        };
        if considered {
            let s = score(grad, y, k);
            if up_eligible(alpha, bounds, y, k) {
                match best_up {
                    None => {
                        best_up = Some(k);
                        up_s = s;
                    },
                    Some(_) => {
                        if up_s.lt(s) {
                            best_up = Some(k);
                            up_s = s;
                        }
                    },
                }
            }
            if low_eligible(alpha, bounds, y, k) {
                match best_low {
                    None => {
                        best_low = Some(k);
                        low_s = s;
                    },
                    Some(_) => {
                        if s.lt(low_s) {
                            best_low = Some(k);
                            low_s = s;
                        }
                    },
                }
            }
        }
        k += 1;
    }
    match (best_up, best_low) {
        (Some(i), Some(j)) => {
            let gap = up_s.sub(low_s);
            if eps.lt(gap) {
                assert(i != j);
                Some((i, j, gap))
            } else {
                proof {
                    assert forall|t: int, u: int|
                        0 <= t < n && 0 <= u < n && #[trigger] considered_spec(
                            y@,
                            active@,
                            restrict,
                            t,
                        ) && #[trigger] considered_spec(y@, active@, restrict, u) && up_elig_spec(
                            alpha@,
                            bounds@,
                            y@,
                            t,
                        ) && low_elig_spec(alpha@, bounds@, y@, u) implies fx_sub(
                        spec_score(grad@, y@, t),
                        spec_score(grad@, y@, u),
                    ) <= eps@ by {
                        assert(spec_score(grad@, y@, t) <= up_s@);
                        assert(spec_score(grad@, y@, u) >= low_s@);
                    }
                }
                None
            }
        },
        _ => None,
    }
}

/// Set aside samples that are pinned against a bound and, by their score,
/// far from becoming eligible again; the solve loop reconsiders them before
/// it accepts convergence.
fn shrink(grad: &Vec<Fx>, alpha: &Vec<Fx>, bounds: &Vec<Fx>, y: &Vec<bool>, active: &mut Vec<bool>)
    requires
        grad@.len() == alpha@.len(),
        bounds@.len() == alpha@.len(),
        y@.len() == alpha@.len(),
        old(active)@.len() == alpha@.len(),
    ensures
        final(active)@.len() == alpha@.len(),
{
    let n = alpha.len();
    // Current extremes of the violation measure over the working set.
    let mut gmax: Option<Fx> = None;
    let mut gmin: Option<Fx> = None;
    let mut k: usize = 0;
    while k < n
        invariant
            k <= n,
            n == alpha@.len(),
            grad@.len() == n,
            bounds@.len() == n,
            y@.len() == n,
            active@.len() == n,
        decreases n - k,
    {
        if active[k] {
            let s = score(grad, y, k);
            if up_eligible(alpha, bounds, y, k) {
                gmax = match gmax {
                    None => Some(s),
                    Some(g) => if g.lt(s) {
                        Some(s)
                    } else {
                        Some(g)
                    },
                };
            }
            if low_eligible(alpha, bounds, y, k) {
                gmin = match gmin {
                    None => Some(s),
                    Some(g) => if s.lt(g) {
                        Some(s)
                    } else {
                        Some(g)
                    },
                };
            }
        }
        k += 1;
    }
    if let (Some(gmax), Some(gmin)) = (gmax, gmin) {
        let mut k2: usize = 0;
        while k2 < n
            invariant
                k2 <= n,
                n == alpha@.len(),
                grad@.len() == n,
                bounds@.len() == n,
                y@.len() == n,
                active@.len() == n,
            decreases n - k2,
        {
            if active[k2] {
                let pinned = alpha[k2].bits() == 0 || alpha[k2].bits() == bounds[k2].bits();
                if pinned {
                    let s = score(grad, y, k2);
                    let up_far = !up_eligible(alpha, bounds, y, k2) || s.lt(gmin);
                    let low_far = !low_eligible(alpha, bounds, y, k2) || gmax.lt(s);
                    if up_far && low_far {
                        active.set(k2, false);
                    }
                }
            }
            k2 += 1;
        }
    }
}

/// Move the selected pair to the constrained optimum of its two-variable
/// subproblem: compute the unconstrained step along the equality
/// constraint, clip it to the feasible segment of both boxes, apply it with
/// exact arithmetic, and fold the two coefficient deltas into the gradient
/// of every sample. Returns whether the coefficients moved at all.
fn do_step<K: PermKernel>(
    kernel: &K,
    y: &Vec<bool>,
    bounds: &Vec<Fx>,
    alpha: &mut Vec<Fx>,
    grad: &mut Vec<Fx>,
    i: usize,
    j: usize,
) -> (moved: bool)
    requires
        kernel.wf(),
        old(alpha)@.len() == kernel.sz(),
        old(grad)@.len() == kernel.sz(),
        y@.len() == kernel.sz(),
        bounds@.len() == kernel.sz(),
        i < kernel.sz(),
        j < kernel.sz(),
        i != j,
        bounds_ok(bounds@),
        box_ok(old(alpha)@, bounds@),
    ensures
        final(alpha)@.len() == old(alpha)@.len(),
        final(grad)@.len() == old(grad)@.len(),
        box_ok(final(alpha)@, bounds@),
        signed_sum(final(alpha)@, y@) == signed_sum(old(alpha)@, y@),
        !moved ==> final(alpha)@ == old(alpha)@ && final(grad)@ == old(grad)@,
        moved ==> final(alpha)@[i as int]@ != old(alpha)@[i as int]@,
        moved ==> (forall|k: int|
            0 <= k < final(grad)@.len() ==> #[trigger] final(grad)@[k]@ == fx_add(
                fx_add(
                    old(grad)@[k]@,
                    fx_mul(
                        kernel.q(i as int, k),
                        final(alpha)@[i as int]@ - old(alpha)@[i as int]@,
                    ),
                ),
                fx_mul(kernel.q(j as int, k), final(alpha)@[j as int]@ - old(alpha)@[j as int]@),
            )),
{
    let n = kernel.size();
    let qi = kernel.row(i);
    let qj = kernel.row(j);
    let ai: i64 = alpha[i].bits();
    let aj: i64 = alpha[j].bits();
    let bi: i64 = bounds[i].bits();
    let bj: i64 = bounds[j].bits();
    let yi = y[i];
    let yj = y[j];
    proof {
        assert(0 <= alpha@[i as int]@ <= bounds@[i as int]@);
        assert(0 <= alpha@[j as int]@ <= bounds@[j as int]@);
        assert(bounds@[i as int]@ <= MAX_ALPHA_BITS);
        assert(bounds@[j as int]@ <= MAX_ALPHA_BITS);
    }
    // Curvature of the subproblem along the constraint direction.
    let two = Fx::from_bits(2 * SCALE);
    let mut quad = if yi == yj {
        qi[i].add(qj[j]).sub(two.mul(qi[j]))
    } else {
        qi[i].add(qj[j]).add(two.mul(qi[j]))
    };
    if quad.bits() <= 0 {
        quad = Fx::from_bits(TAU_BITS);
    }
    let gi = grad[i];
    let gj = grad[j];
    // New value for alpha_i: unconstrained optimum, clipped to the feasible
    // segment [lo, hi] that keeps alpha_j inside its own box.
    let t: i64;
    let new_aj: i64;
    if yi == yj {
        let c: i64 = ai + aj;
        let lo: i64 = if c - bj > 0 {
            c - bj
        } else {
            0
        };
        let hi: i64 = if bi < c {
            bi
        } else {
            c
        };
        let delta = gi.sub(gj).div(quad);
        let t0 = Fx::from_bits(ai).sub(delta);
        t = if t0.bits() < lo {
            lo
        } else if t0.bits() > hi {
            hi
        } else {
            t0.bits()
        };
        new_aj = c - t;
    } else {
        let d: i64 = ai - aj;
        let lo: i64 = if d > 0 {
            d
        } else {
            0
        };
        let hic: i64 = bj + d;
        let hi: i64 = if bi < hic {
            bi
        } else {
            hic
        };
        let delta = gi.neg().sub(gj).div(quad);
        let t0 = Fx::from_bits(ai).add(delta);
        t = if t0.bits() < lo {
            lo
        } else if t0.bits() > hi {
            hi
        } else {
            t0.bits()
        };
        new_aj = t - d;
    }
    if t == ai {
        return false;
    }
    let di: i64 = t - ai;
    let dj: i64 = new_aj - aj;
    let ghost pre = alpha@;
    alpha.set(i, Fx::from_bits(t));
    alpha.set(j, Fx::from_bits(new_aj));
    proof {
        lemma_signed_sum_update(pre, y@, i as int, Fx { bits: t });
        lemma_signed_sum_update(pre.update(i as int, Fx { bits: t }), y@, j as int, Fx { bits: new_aj });
        assert(signed_sum(alpha@, y@) == signed_sum(pre, y@) + sgn(y@[i as int]) * (t - ai) + sgn(
            y@[j as int],
        ) * (new_aj - aj));
    }
    // Incremental gradient maintenance: G_k += Q_ik * di + Q_jk * dj.
    let dif = Fx::from_bits(di);
    let djf = Fx::from_bits(dj);
    let ghost g0 = grad@;
    let mut k: usize = 0;
    while k < n
        invariant
            k <= n,
            n == kernel.sz(),
            kernel.wf(),
            i < n,
            j < n,
            grad@.len() == n,
            g0.len() == n,
            qi@.len() == n,
            qj@.len() == n,
            forall|t: int| 0 <= t < n ==> #[trigger] qi@[t]@ == kernel.q(i as int, t),
            forall|t: int| 0 <= t < n ==> #[trigger] qj@[t]@ == kernel.q(j as int, t),
            dif@ == di as int,
            djf@ == dj as int,
            forall|t: int| k <= t < n ==> #[trigger] grad@[t] == g0[t],
            forall|t: int|
                0 <= t < k ==> #[trigger] grad@[t]@ == fx_add(
                    fx_add(g0[t]@, fx_mul(kernel.q(i as int, t), di as int)),
                    fx_mul(kernel.q(j as int, t), dj as int),
                ),
        decreases n - k,
    {
        let g = grad[k].add(qi[k].mul(dif)).add(qj[k].mul(djf));
        grad.set(k, g);
        k += 1;
    }
    true
}

/// `count_val(c)` as a fixed-point value: the count, capped far below the
/// saturation threshold so that the result stays positive.
fn count_fx(c: usize) -> (r: Fx)
    requires
        c >= 1,
    ensures
        r@ == count_val(c as int),
        r@ > 0,
{
    let cc: i64 = if c > 1000000000 {
        1000000000
    } else {
        c as i64
    };
    proof {
        assert(1 * (SCALE as int) <= cc as int * (SCALE as int) <= 1000000000 * (SCALE as int))
            by (nonlinear_arith)
            requires
                1 <= cc as int <= 1000000000,
        ;
    }
    Fx::from_int(cc)
}

/// Running minimum of an optional extreme.
pub open spec fn omin(o: Option<int>, v: int) -> Option<int> {
    match o {
        None => Some(v),
        Some(x) => if v < x {
            Some(v)
        } else {
            Some(x)
        },
    }
}

/// Running maximum of an optional extreme.
pub open spec fn omax(o: Option<int>, v: int) -> Option<int> {
    match o {
        None => Some(v),
        Some(x) => if x < v {
            Some(v)
        } else {
            Some(x)
        },
    }
}

/// A sample count in fixed-point units, capped far below saturation.
pub open spec fn count_val(c: int) -> int {
    sat64(
        (if c > 1000000000 {
            1000000000int
        } else {
            c
        }) * (SCALE as int),
    )
}

/// Midpoint of the attainable bias range; one-sided or zero where an
/// extreme is missing.
pub open spec fn mid_val(ub: Option<int>, lb: Option<int>) -> int {
    match (ub, lb) {
        (Some(u), Some(l)) => fx_mul(fx_add(u, l), SCALE as int / 2),
        (Some(u), None) => u,
        (None, Some(l)) => l,
        (None, None) => 0,
    }
}

/// The bias scan over the first `k` samples: the running upper and lower
/// extremes of `y * grad` over bound-pinned coefficients, and the sum and
/// count of `y * grad` over free ones, folded exactly as the executable
/// scan does.
pub open spec fn rho_scan(g: Seq<Fx>, a: Seq<Fx>, b: Seq<Fx>, y: Seq<bool>, k: int) -> (
    Option<int>,
    Option<int>,
    int,
    int,
)
    decreases k,
{
    if k <= 0 {
        (None, None, 0, 0)
    } else {
        let st = rho_scan(g, a, b, y, k - 1);
        let i = k - 1;
        let yg = if y[i] {
            g[i]@
        } else {
            fx_neg(g[i]@)
        };
        if a[i]@ == b[i]@ {
            if y[i] {
                (st.0, omax(st.1, yg), st.2, st.3)
            } else {
                (omin(st.0, yg), st.1, st.2, st.3)
            }
        } else if a[i]@ == 0 {
            if y[i] {
                (omin(st.0, yg), st.1, st.2, st.3)
            } else {
                (st.0, omax(st.1, yg), st.2, st.3)
            }
        } else {
            (st.0, st.1, fx_add(st.2, yg), st.3 + 1)
        }
    }
}

/// The bias term: the averaged free-sample scan sum when a free sample
/// exists, the midpoint of the extremes otherwise.
pub open spec fn rho_val(g: Seq<Fx>, a: Seq<Fx>, b: Seq<Fx>, y: Seq<bool>) -> int {
    let st = rho_scan(g, a, b, y, a.len() as int);
    if st.3 > 0 {
        fx_div(st.2, count_val(st.3))
    } else {
        mid_val(st.0, st.1)
    }
}

/// The one-class-of-labels margin scan: like the bias scan, restricted to
/// one label and folding the raw gradient.
pub open spec fn margin_scan(
    g: Seq<Fx>,
    a: Seq<Fx>,
    b: Seq<Fx>,
    y: Seq<bool>,
    label: bool,
    k: int,
) -> (Option<int>, Option<int>, int, int)
    decreases k,
{
    if k <= 0 {
        (None, None, 0, 0)
    } else {
        let st = margin_scan(g, a, b, y, label, k - 1);
        let i = k - 1;
        if y[i] == label {
            if a[i]@ == b[i]@ {
                (st.0, omax(st.1, g[i]@), st.2, st.3)
            } else if a[i]@ == 0 {
                (omin(st.0, g[i]@), st.1, st.2, st.3)
            } else {
                (st.0, st.1, fx_add(st.2, g[i]@), st.3 + 1)
            }
        } else {
            st
        }
    }
}

/// The margin value of one class: averaged free-sample gradient, or the
/// midpoint of the extremes when no coefficient of the class is free.
pub open spec fn margin_val(g: Seq<Fx>, a: Seq<Fx>, b: Seq<Fx>, y: Seq<bool>, label: bool) -> int {
    let st = margin_scan(g, a, b, y, label, a.len() as int);
    if st.3 > 0 {
        fx_div(st.2, count_val(st.3))
    } else {
        mid_val(st.0, st.1)
    }
}

/// The bias term of the decision function, from the gradient values of
/// margin samples: the average of `y_k * grad_k` over coefficients strictly
/// between their bounds, or the midpoint of the attainable range when no
/// coefficient is free. Returns exactly `rho_val` of the scanned state.
fn calculate_rho(grad: &Vec<Fx>, alpha: &Vec<Fx>, bounds: &Vec<Fx>, y: &Vec<bool>) -> (rho: Fx)
    requires
        grad@.len() == alpha@.len(),
        bounds@.len() == alpha@.len(),
        y@.len() == alpha@.len(),
    ensures
        rho@ == rho_val(grad@, alpha@, bounds@, y@),
{
    let n = alpha.len();
    let mut ub: Option<Fx> = None;
    let mut lb: Option<Fx> = None;
    let mut sum_free = Fx::zero();
    let mut nfree: usize = 0;
    let mut k: usize = 0;
    while k < n
        invariant
            k <= n,
            n == alpha@.len(),
            grad@.len() == n,
            bounds@.len() == n,
            y@.len() == n,
            nfree <= k,
            match ub {
                None => rho_scan(grad@, alpha@, bounds@, y@, k as int).0 is None,
                Some(v) => rho_scan(grad@, alpha@, bounds@, y@, k as int).0 == Some(v@),
            },
            match lb {
                None => rho_scan(grad@, alpha@, bounds@, y@, k as int).1 is None,
                Some(v) => rho_scan(grad@, alpha@, bounds@, y@, k as int).1 == Some(v@),
            },
            sum_free@ == rho_scan(grad@, alpha@, bounds@, y@, k as int).2,
            nfree as int == rho_scan(grad@, alpha@, bounds@, y@, k as int).3,
        decreases n - k,
    {
        // yg = y_k * grad_k.
        let yg = if y[k] {
            grad[k]
        } else {
            grad[k].neg()
        };
        let at_upper = alpha[k].bits() == bounds[k].bits();
        let at_lower = alpha[k].bits() == 0;
        if at_upper {
            if y[k] {
                lb = Some(match lb {
                    None => yg,
                    Some(v) => if v.lt(yg) {
                        yg
                    } else {
                        v
                    },
                });
            } else {
                ub = Some(match ub {
                    None => yg,
                    Some(v) => if yg.lt(v) {
                        yg
                    } else {
                        v
                    },
                });
            }
        } else if at_lower {
            if y[k] {
                ub = Some(match ub {
                    None => yg,
                    Some(v) => if yg.lt(v) {
                        yg
                    } else {
                        v
                    },
                });
            } else {
                lb = Some(match lb {
                    None => yg,
                    Some(v) => if v.lt(yg) {
                        yg
                    } else {
                        v
                    },
                });
            }
        } else {
            sum_free = sum_free.add(yg);
            nfree += 1;
        }
        k += 1;
    }
    if nfree > 0 {
        sum_free.div(count_fx(nfree))
    } else {
        match (ub, lb) {
            (Some(u), Some(l)) => u.add(l).mul(Fx::from_bits(SCALE / 2)),
            (Some(u), None) => u,
            (None, Some(l)) => l,
            (None, None) => Fx::zero(),
        }
    }
}

/// The bias and normalization of the Nu formulation: one margin average per
/// class, combined as `rho = (r_pos - r_neg) / 2` and `r = (r_pos + r_neg)
/// / 2`.
fn calculate_rho_nu(grad: &Vec<Fx>, alpha: &Vec<Fx>, bounds: &Vec<Fx>, y: &Vec<bool>) -> (rr: (
    Fx,
    Fx,
))
    requires
        grad@.len() == alpha@.len(),
        bounds@.len() == alpha@.len(),
        y@.len() == alpha@.len(),
    ensures
        rr.0@ == fx_mul(
            fx_sub(
                margin_val(grad@, alpha@, bounds@, y@, true),
                margin_val(grad@, alpha@, bounds@, y@, false),
            ),
            SCALE as int / 2,
        ),
        rr.1@ == fx_mul(
            fx_add(
                margin_val(grad@, alpha@, bounds@, y@, true),
                margin_val(grad@, alpha@, bounds@, y@, false),
            ),
            SCALE as int / 2,
        ),
{
    let r_pos = class_margin(grad, alpha, bounds, y, true);
    let r_neg = class_margin(grad, alpha, bounds, y, false);
    let half = Fx::from_bits(SCALE / 2);
    let rho = r_pos.sub(r_neg).mul(half);
    let r = r_pos.add(r_neg).mul(half);
    (rho, r)
}

/// The margin value of one class: the average gradient over its free
/// coefficients, or the midpoint of the attainable range when none is
/// free. Returns exactly `margin_val` of the scanned state.
fn class_margin(grad: &Vec<Fx>, alpha: &Vec<Fx>, bounds: &Vec<Fx>, y: &Vec<bool>, label: bool) -> (r:
    Fx)
    requires
        grad@.len() == alpha@.len(),
        bounds@.len() == alpha@.len(),
        y@.len() == alpha@.len(),
    ensures
        r@ == margin_val(grad@, alpha@, bounds@, y@, label),
{
    let n = alpha.len();
    let mut ub: Option<Fx> = None;
    let mut lb: Option<Fx> = None;
    let mut sum_free = Fx::zero();
    let mut nfree: usize = 0;
    let mut k: usize = 0;
    while k < n
        invariant
            k <= n,
            n == alpha@.len(),
            grad@.len() == n,
            bounds@.len() == n,
            y@.len() == n,
            nfree <= k,
            match ub {
                None => margin_scan(grad@, alpha@, bounds@, y@, label, k as int).0 is None,
                Some(v) => margin_scan(grad@, alpha@, bounds@, y@, label, k as int).0 == Some(v@),
            },
            match lb {
                None => margin_scan(grad@, alpha@, bounds@, y@, label, k as int).1 is None,
                Some(v) => margin_scan(grad@, alpha@, bounds@, y@, label, k as int).1 == Some(v@),
            },
            sum_free@ == margin_scan(grad@, alpha@, bounds@, y@, label, k as int).2,
            nfree as int == margin_scan(grad@, alpha@, bounds@, y@, label, k as int).3,
        decreases n - k,
    {
        if y[k] == label {
            let g = grad[k];
            if alpha[k].bits() == bounds[k].bits() {
                lb = Some(match lb {
                    None => g,
                    Some(v) => if v.lt(g) {
                        g
                    } else {
                        v
                    },
                });
            } else if alpha[k].bits() == 0 {
                ub = Some(match ub {
                    None => g,
                    Some(v) => if g.lt(v) {
                        g
                    } else {
                        v
                    },
                });
            } else {
                sum_free = sum_free.add(g);
                nfree += 1;
            }
        }
        k += 1;
    }
    if nfree > 0 {
        sum_free.div(count_fx(nfree))
    } else {
        match (ub, lb) {
            (Some(u), Some(l)) => u.add(l).mul(Fx::from_bits(SCALE / 2)),
            (Some(u), None) => u,
            (None, Some(l)) => l,
            (None, None) => Fx::zero(),
        }
    }
}

} // verus!
