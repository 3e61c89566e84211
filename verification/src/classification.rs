//! The three SVM formulations over one optimizer: C-penalized binary
//! classification, Nu-penalized binary classification, and one-class
//! novelty detection. Each builder validates its parameters, constructs the
//! formulation's initial coefficients, bounds and linear term, runs the
//! solver, and post-processes the raw result (sign restoration, Nu
//! rescaling).

use vstd::prelude::*;

use crate::fixed::{fx_add, fx_div, fx_mul, fx_neg, fx_sub, iabs, Fx, SCALE};
use crate::kernel::{Kernel, PermKernel, PermutableKernel, PermutableKernelOneClass};
use crate::laws::{lemma_div_unit_error, lemma_nu_equality};
use crate::solver::{
    grad_q_seq, kkt_within, lemma_grad_seq_agrees, margin_val, obj_sum, rho_val, SolverParams,
    SolverState, SvmResult, MAX_ALPHA_BITS,
};
use crate::sums::{
    apply_sign, count_matching, lemma_apply_sign, lemma_count_push, lemma_plain_sum_push,
    lemma_sign_restore, lemma_signed_sum_all_true, lemma_signed_sum_push, lemma_signed_sum_zero,
    plain_sum, sgn, signed_sum,
};

verus! {

/// Why a formulation builder refused to run: the parameters were invalid at
/// the boundary, or the solved Nu problem had no positive normalization to
/// rescale by.
#[derive(Clone, Copy, PartialEq, Eq, Structural, Debug)]
pub enum SvmError {
    InvalidParameter,
    DegenerateSolution,
}

/// The smaller of two integers.
pub open spec fn imin(a: int, b: int) -> int {
    if a < b {
        a
    } else {
        b
    }
}

/// The per-class coefficient mass of the Nu formulation: `nu * len / 2`,
/// in fixed-point units.
pub open spec fn nu_mass(len: int, nu: int) -> int {
    (nu * len) / 2
}

/// A vector of `n` copies of `v`.
fn fill(n: usize, v: Fx) -> (r: Vec<Fx>)
    ensures
        r@.len() == n,
        forall|i: int| 0 <= i < n ==> #[trigger] r@[i] == v,
{
    let mut out: Vec<Fx> = Vec::new();
    let mut i: usize = 0;
    while i < n
        invariant
            i <= n,
            out@.len() == i,
            forall|k: int| 0 <= k < i ==> #[trigger] out@[k] == v,
        decreases n - i,
    {
        out.push(v);
        i += 1;
    }
    out
}

/// A vector of `n` copies of `v`.
fn fill_bools(n: usize, v: bool) -> (r: Vec<bool>)
    ensures
        r@.len() == n,
        forall|i: int| 0 <= i < n ==> #[trigger] r@[i] == v,
{
    let mut out: Vec<bool> = Vec::new();
    let mut i: usize = 0;
    while i < n
        invariant
            i <= n,
            out@.len() == i,
            forall|k: int| 0 <= k < i ==> #[trigger] out@[k] == v,
        decreases n - i,
    {
        out.push(v);
        i += 1;
    }
    out
}

/// An owned copy of a label vector.
fn copy_bools(v: &Vec<bool>) -> (r: Vec<bool>)
    ensures
        r@ == v@,
{
    let n = v.len();
    let mut out: Vec<bool> = Vec::new();
    let mut i: usize = 0;
    while i < n
        invariant
            i <= n,
            n == v@.len(),
            out@.len() == i,
            forall|k: int| 0 <= k < i ==> #[trigger] out@[k] == v@[k],
        decreases n - i,
    {
        out.push(v[i]);
        i += 1;
    }
    proof {
        assert(out@ =~= v@);
    }
    out
}

/// The C-formulation box bounds: `cpos` for positive-labeled samples,
/// `cneg` for negative ones.
fn c_bounds(targets: &Vec<bool>, cpos: Fx, cneg: Fx) -> (r: Vec<Fx>)
    ensures
        r@.len() == targets@.len(),
        forall|i: int|
            0 <= i < r@.len() ==> #[trigger] r@[i] == if targets@[i] {
                cpos
            } else {
                cneg
            },
{
    let n = targets.len();
    let mut out: Vec<Fx> = Vec::new();
    let mut i: usize = 0;
    while i < n
        invariant
            i <= n,
            n == targets@.len(),
            out@.len() == i,
            forall|k: int|
                0 <= k < i ==> #[trigger] out@[k] == if targets@[k] {
                    cpos
                } else {
                    cneg
                },
        decreases n - i,
    {
        if targets[i] {
            out.push(cpos);
        } else {
            out.push(cneg);
        }
        i += 1;
    }
    out
}

/// The Nu formulation's initial coefficients: a total mass of `nu * len /
/// 2` greedily distributed over each class in index order, every entry
/// capped at one. The signed sum of the result is exactly the filled
/// positive mass minus the filled negative mass.
pub fn nu_init(targets: &Vec<bool>, nu: Fx) -> (r: Vec<Fx>)
    requires
        0 < nu@ < SCALE,
        1 <= targets@.len() <= 0x1_0000_0000,
    ensures
        r@.len() == targets@.len(),
        forall|i: int| 0 <= i < r@.len() ==> 0 <= #[trigger] r@[i]@ <= SCALE,
        signed_sum(r@, targets@) == imin(
            nu_mass(targets@.len() as int, nu@),
            SCALE * count_matching(targets@, true),
        ) - imin(nu_mass(targets@.len() as int, nu@), SCALE * count_matching(targets@, false)),
        forall|i: int|
            0 <= i < r@.len() ==> #[trigger] r@[i]@ == imin(
                SCALE as int,
                nu_mass(targets@.len() as int, nu@) - imin(
                    nu_mass(targets@.len() as int, nu@),
                    SCALE * count_matching(targets@.take(i), targets@[i]),
                ),
            ),
{
    let n = targets.len();
    proof {
        assert(nu@ * (n as int) <= (SCALE as int) * 0x1_0000_0000) by (nonlinear_arith)
            requires
                0 < nu@ <= SCALE,
                0 < n <= 0x1_0000_0000,
        ;
    }
    let prod: u64 = (nu.bits() as u64) * (n as u64);
    let m: i64 = (prod / 2) as i64;
    proof {
        assert(nu@ * n <= SCALE * n) by (nonlinear_arith)
            requires
                0 < nu@ <= SCALE,
                0 < n,
        ;
        assert(SCALE * (n as int) <= SCALE * 0x1_0000_0000) by (nonlinear_arith)
            requires
                n <= 0x1_0000_0000,
        ;
        assert(m as int == nu_mass(n as int, nu@));
    }
    let mut rem_pos: i64 = m;
    let mut rem_neg: i64 = m;
    let mut out: Vec<Fx> = Vec::new();
    let mut i: usize = 0;
    while i < n
        invariant
            i <= n,
            n == targets@.len(),
            out@.len() == i,
            0 <= m <= SCALE * 0x1_0000_0000,
            m as int == nu_mass(n as int, nu@),
            forall|k: int| 0 <= k < i ==> 0 <= #[trigger] out@[k]@ <= SCALE,
            0 <= rem_pos <= m,
            0 <= rem_neg <= m,
            rem_pos as int == m - imin(m as int, SCALE * count_matching(targets@.take(i as int), true)),
            rem_neg as int == m - imin(
                m as int,
                SCALE * count_matching(targets@.take(i as int), false),
            ),
            signed_sum(out@, targets@.take(i as int)) == rem_neg - rem_pos,
            forall|k: int|
                0 <= k < i ==> #[trigger] out@[k]@ == imin(
                    SCALE as int,
                    m - imin(m as int, SCALE * count_matching(targets@.take(k), targets@[k])),
                ),
        decreases n - i,
    {
        let t = targets[i];
        let ghost pre_out = out@;
        let ghost pre_y = targets@.take(i as int);
        let val: i64;
        if t {
            val = if rem_pos >= SCALE {
                SCALE
            } else {
                rem_pos
            };
            rem_pos = rem_pos - val;
        } else {
            val = if rem_neg >= SCALE {
                SCALE
            } else {
                rem_neg
            };
            rem_neg = rem_neg - val;
        }
        out.push(Fx { bits: val });
        i += 1;
        proof {
            assert(targets@.take(i as int) =~= pre_y.push(targets@[i - 1]));
            lemma_count_push(pre_y, true, targets@[i - 1]);
            lemma_count_push(pre_y, false, targets@[i - 1]);
            lemma_signed_sum_push(pre_out, pre_y, Fx { bits: val }, targets@[i - 1]);
        }
    }
    proof {
        assert(targets@.take(n as int) =~= targets@);
    }
    out
}

/// The one-class initial coefficients: the first `floor(nu * n)` entries
/// are one, the next single entry carries the fractional remainder, all
/// later entries are zero — exactly `nu * n` units of mass in ascending
/// index order.
pub fn one_class_init(n: usize, nu: Fx) -> (r: Vec<Fx>)
    requires
        0 < nu@ < SCALE,
        1 <= n <= 0x1_0000_0000,
    ensures
        r@.len() == n,
        forall|i: int| 0 <= i < r@.len() ==> 0 <= #[trigger] r@[i]@ <= SCALE,
        plain_sum(r@) == nu@ * n,
        forall|i: int|
            0 <= i < r@.len() ==> #[trigger] r@[i]@ == (if i < (nu@ * n) / (SCALE as int) {
                SCALE as int
            } else if i == (nu@ * n) / (SCALE as int) {
                (nu@ * n) % (SCALE as int)
            } else {
                0
            }),
{
    proof {
        assert(nu@ * (n as int) <= (SCALE as int) * 0x1_0000_0000) by (nonlinear_arith)
            requires
                0 < nu@ <= SCALE,
                0 < n <= 0x1_0000_0000,
        ;
    }
    let mass: u64 = (nu.bits() as u64) * (n as u64);
    let nfull: u64 = mass / (SCALE as u64);
    let frac: u64 = mass % (SCALE as u64);
    proof {
        assert(nu@ * n < SCALE * n) by (nonlinear_arith)
            requires
                0 < nu@ < SCALE,
                0 < n,
        ;
        assert(SCALE * (n as int) <= SCALE * 0x1_0000_0000) by (nonlinear_arith)
            requires
                n <= 0x1_0000_0000,
        ;
        vstd::arithmetic::div_mod::lemma_fundamental_div_mod(mass as int, SCALE as int);
        assert(mass as int == SCALE * (nfull as int) + frac);
        assert(nfull < n);
    }
    let nfull_us: usize = nfull as usize;
    let mut out: Vec<Fx> = Vec::new();
    let mut i: usize = 0;
    while i < n
        invariant
            i <= n,
            out@.len() == i,
            nfull_us == nfull,
            nfull < n <= 0x1_0000_0000,
            mass == nu@ * n,
            0 <= frac < SCALE,
            mass as int == SCALE * (nfull as int) + frac,
            forall|k: int|
                0 <= k < i ==> #[trigger] out@[k]@ == (if k < nfull as int {
                    SCALE as int
                } else if k == nfull as int {
                    frac as int
                } else {
                    0
                }),
            forall|k: int| 0 <= k < i ==> 0 <= #[trigger] out@[k]@ <= SCALE,
            plain_sum(out@) == if i <= nfull_us {
                SCALE * (i as int)
            } else {
                mass as int
            },
        decreases n - i,
    {
        let ghost pre_out = out@;
        let v: Fx = if i < nfull_us {
            Fx { bits: SCALE }
        } else if i == nfull_us {
            Fx { bits: frac as i64 }
        } else {
            Fx { bits: 0 }
        };
        out.push(v);
        i += 1;
        proof {
            lemma_plain_sum_push(pre_out, v);
        }
    }
    proof {
        assert((nu@ * n) / (SCALE as int) == nfull as int && (nu@ * n) % (SCALE as int)
            == frac as int) by {
            vstd::arithmetic::div_mod::lemma_fundamental_div_mod_converse(
                mass as int,
                SCALE as int,
                nfull as int,
                frac as int,
            );
        }
    }
    out
}

/// The effective quadratic-form matrix of the binary formulations:
/// `Q_ij = y_i * y_j * K(i, j)`.
pub open spec fn binary_q(kernel: &Kernel, targets: Seq<bool>) -> spec_fn(int, int) -> int {
    |i: int, j: int|
        if targets[i] == targets[j] {
            kernel.at(i, j)
        } else {
            fx_neg(kernel.at(i, j))
        }
}

/// The effective matrix of the one-class formulation: the raw kernel.
pub open spec fn one_class_q(kernel: &Kernel) -> spec_fn(int, int) -> int {
    |i: int, j: int| kernel.at(i, j)
}

/// `n` copies of one coefficient.
pub open spec fn const_seq(n: nat, v: Fx) -> Seq<Fx> {
    Seq::new(n, |i: int| v)
}

/// `n` copies of one label.
pub open spec fn const_bools(n: nat, v: bool) -> Seq<bool> {
    Seq::new(n, |i: int| v)
}

/// The per-sample C-formulation bounds as a sequence.
pub open spec fn c_bounds_seq(targets: Seq<bool>, cpos: Fx, cneg: Fx) -> Seq<Fx> {
    Seq::new(
        targets.len(),
        |i: int|
            if targets[i] {
                cpos
            } else {
                cneg
            },
    )
}

/// The label-signed coefficients stripped back to the solver's internal
/// nonnegative form.
pub open spec fn strip_signs(a: Seq<Fx>, y: Seq<bool>) -> Seq<Fx> {
    Seq::new(a.len(), |i: int| Fx { bits: apply_sign(y[i], a[i]@) as i64 })
}

/// Valid inputs for the C formulation: label count matching the kernel, a
/// nonempty sample set, positive admissible penalties, and a positive
/// tolerance.
pub open spec fn c_params_ok(
    kernel: &Kernel,
    targets: Seq<bool>,
    cpos: Fx,
    cneg: Fx,
    params: &SolverParams,
) -> bool {
    &&& targets.len() == kernel.sz()
    &&& kernel.sz() >= 1
    &&& 0 < cpos@ <= MAX_ALPHA_BITS
    &&& 0 < cneg@ <= MAX_ALPHA_BITS
    &&& params.eps@ > 0
}

/// Valid inputs for the Nu formulation: label count matching the kernel, a
/// nonempty sample set, `nu` strictly between zero and one, and a positive
/// tolerance.
pub open spec fn nu_params_ok(
    kernel: &Kernel,
    targets: Seq<bool>,
    nu: Fx,
    params: &SolverParams,
) -> bool {
    &&& targets.len() == kernel.sz()
    &&& kernel.sz() >= 1
    &&& 0 < nu@ < SCALE
    &&& params.eps@ > 0
}

/// Valid inputs for the one-class formulation: a nonempty sample set, `nu`
/// strictly between zero and one, and a positive tolerance.
pub open spec fn one_class_params_ok(kernel: &Kernel, nu: Fx, params: &SolverParams) -> bool {
    &&& kernel.sz() >= 1
    &&& 0 < nu@ < SCALE
    &&& params.eps@ > 0
}

/// Both classes can absorb the Nu formulation's per-class mass, so the
/// initializer starts exactly on the equality-constraint hyperplane.
pub open spec fn nu_feasible(y: Seq<bool>, nu: int) -> bool {
    &&& nu_mass(y.len() as int, nu) <= SCALE * count_matching(y, true)
    &&& nu_mass(y.len() as int, nu) <= SCALE * count_matching(y, false)
}

/// Restore the label sign on each internally nonnegative coefficient.
fn restore_signs(a: &Vec<Fx>, targets: &Vec<bool>) -> (r: Vec<Fx>)
    requires
        a@.len() == targets@.len(),
        forall|i: int| 0 <= i < a@.len() ==> 0 <= #[trigger] a@[i]@ <= MAX_ALPHA_BITS,
    ensures
        r@.len() == a@.len(),
        forall|i: int| 0 <= i < r@.len() ==> #[trigger] r@[i]@ == apply_sign(targets@[i], a@[i]@),
{
    let n = a.len();
    let mut out: Vec<Fx> = Vec::new();
    let mut i: usize = 0;
    while i < n
        invariant
            i <= n,
            n == a@.len(),
            targets@.len() == n,
            forall|k: int| 0 <= k < n ==> 0 <= #[trigger] a@[k]@ <= MAX_ALPHA_BITS,
            out@.len() == i,
            forall|k: int| 0 <= k < i ==> #[trigger] out@[k]@ == apply_sign(targets@[k], a@[k]@),
        decreases n - i,
    {
        if targets[i] {
            out.push(a[i]);
        } else {
            out.push(a[i].neg());
        }
        i += 1;
    }
    out
}

/// Support vector classification with a C penalty.
///
/// Solves the binary problem `min_a 1/2 a^T Q a - e^T a` subject to
/// `y^T a = 0` and `0 <= a_i <= C_i`, with `Q_ij = y_i y_j K(i, j)`, where
/// `C_i` is `cpos` for positive-labeled samples and `cneg` for negative
/// ones. The returned coefficients carry their label's sign, lie inside the
/// signed box, and sum to exactly zero — the equality constraint the solver
/// preserves step by step. The bias and the objective are the stated
/// functions of the gradient recomputed at the returned coefficients, and
/// `converged` means that state passes the eps-optimality test (its
/// negation means the iteration cap cut the run short). Invalid parameters
/// are rejected before the solver runs.
pub fn fit_c<'a>(
    params: &'a SolverParams,
    kernel: &'a Kernel,
    targets: &Vec<bool>,
    cpos: Fx,
    cneg: Fx,
) -> (res: Result<SvmResult, SvmError>)
    ensures
        (res matches Ok(m)) <==> c_params_ok(kernel, targets@, cpos, cneg, params),
        res matches Err(e) ==> e == SvmError::InvalidParameter,
        res matches Ok(m) ==> ({
            let raw = strip_signs(m.alpha@, targets@);
            let pvec = const_seq(targets@.len(), Fx { bits: (-SCALE) as i64 });
            let bnds = c_bounds_seq(targets@, cpos, cneg);
            let fg = grad_q_seq(binary_q(kernel, targets@), pvec, raw);
            &&& m.alpha@.len() == targets@.len()
            &&& (forall|i: int|
                0 <= i < m.alpha@.len() ==> (if targets@[i] {
                    0 <= #[trigger] m.alpha@[i]@ <= cpos@
                } else {
                    -cneg@ <= m.alpha@[i]@ <= 0
                }))
            &&& plain_sum(m.alpha@) == 0
            &&& m.r is None
            &&& (m.converged ==> kkt_within(fg, raw, bnds, targets@, None, params.eps@))
            &&& m.rho@ == rho_val(fg, raw, bnds, targets@)
            &&& m.obj@ == fx_mul(obj_sum(raw, fg, pvec, targets@.len() as int), SCALE as int / 2)
        }),
{
    let n = kernel.size();
    let ok = targets.len() == n && n >= 1 && 0 < cpos.bits() && cpos.bits() <= MAX_ALPHA_BITS && 0
        < cneg.bits() && cneg.bits() <= MAX_ALPHA_BITS && 0 < params.eps.bits();
    if !ok {
        return Err(SvmError::InvalidParameter);
    }
    proof {
        use_type_invariant(kernel);
    }
    let bounds = c_bounds(targets, cpos, cneg);
    let init = fill(n, Fx::from_bits(0));
    let ghost init_s = init@;
    let p = fill(n, Fx::from_bits(-SCALE));
    let pk = PermutableKernel::new(kernel, copy_bools(targets));
    let solver = SolverState::new(init, p, copy_bools(targets), pk, bounds, params, false);
    let ghost bounds_s = solver.bounds@;
    let ghost p_s = solver.p@;
    let ghost pk_s = solver.kernel;
    let raw = solver.solve();
    proof {
        lemma_signed_sum_zero(init_s, targets@);
        assert forall|i: int| 0 <= i < raw.alpha@.len() implies 0 <= #[trigger] raw.alpha@[i]@
            <= MAX_ALPHA_BITS by {
            assert(0 <= raw.alpha@[i]@ <= bounds_s[i]@);
        }
    }
    let alpha = restore_signs(&raw.alpha, targets);
    proof {
        assert forall|i: int| 0 <= i < alpha@.len() implies #[trigger] alpha@[i]@ == sgn(
            targets@[i],
        ) * raw.alpha@[i]@ by {
            lemma_apply_sign(targets@[i], raw.alpha@[i]@);
        }
        lemma_sign_restore(raw.alpha@, alpha@, targets@);
        assert forall|i: int| 0 <= i < alpha@.len() implies (if targets@[i] {
            0 <= #[trigger] alpha@[i]@ <= cpos@
        } else {
            -cneg@ <= alpha@[i]@ <= 0
        }) by {
            assert(0 <= raw.alpha@[i]@ <= bounds_s[i]@);
        }
        // The sign restoration is invertible, so the solver's internal
        // coefficients — and with them the recomputed gradient behind the
        // reported bias, objective and convergence verdict — are the
        // stated functions of the returned model.
        assert forall|i: int| 0 <= i < alpha@.len() implies strip_signs(alpha@, targets@)[i]
            == raw.alpha@[i] by {
            assert(0 <= raw.alpha@[i]@ <= bounds_s[i]@);
            assert(apply_sign(targets@[i], alpha@[i]@) == raw.alpha@[i]@);
        }
        assert(strip_signs(alpha@, targets@) =~= raw.alpha@);
        assert forall|i: int, j: int|
            0 <= i < raw.alpha@.len() && 0 <= j < raw.alpha@.len() implies #[trigger] pk_s.q(i, j)
            == (binary_q(kernel, targets@))(i, j) by {}
        lemma_grad_seq_agrees(pk_s, binary_q(kernel, targets@), p_s, raw.alpha@);
        assert forall|i: int| 0 <= i < targets@.len() implies p_s[i] == (Fx { bits: (-SCALE) as i64 }) by {}
        assert(p_s =~= const_seq(targets@.len(), Fx { bits: (-SCALE) as i64 }));
        assert(bounds_s =~= c_bounds_seq(targets@, cpos, cneg));
    }
    Ok(SvmResult { alpha, rho: raw.rho, r: raw.r, obj: raw.obj, converged: raw.converged })
}

/// Support vector classification with a Nu penalty.
///
/// Solves the binary problem `min_a 1/2 a^T Q a` subject to `y^T a = 0`,
/// `0 <= a_i <= 1` and a total-mass constraint set up by the initializer,
/// with `Q_ij = y_i y_j K(i, j)`. After the solve, each coefficient carries
/// its label's sign and is divided by the computed normalization `r` (as
/// are the bias and, twice, the objective), so the model matches the
/// C-formulation's decision scale; a non-positive `r` is reported as a
/// degenerate solution instead of divided by — and only a reachable
/// feasible state with non-positive normalization can produce that report.
/// The normalization, bias and objective are the stated functions of the
/// gradient recomputed at the solver's final coefficients, and `converged`
/// means that state passes the per-class eps-optimality test. When both
/// classes can absorb the initial mass, the returned coefficients sum to
/// within one unit per sample of zero.
pub fn fit_nu<'a>(
    params: &'a SolverParams,
    kernel: &'a Kernel,
    targets: &Vec<bool>,
    nu: Fx,
) -> (res: Result<SvmResult, SvmError>)
    ensures
        (res == Err::<SvmResult, SvmError>(SvmError::InvalidParameter)) <==> !nu_params_ok(
            kernel,
            targets@,
            nu,
            params,
        ),
        res matches Ok(m) ==> ({
            &&& m.alpha@.len() == targets@.len()
            &&& match m.r {
                Some(rv) => {
                    &&& rv@ > 0
                    &&& (forall|i: int|
                        0 <= i < m.alpha@.len() ==> iabs(#[trigger] m.alpha@[i]@) <= fx_div(
                            SCALE as int,
                            rv@,
                        ))
                    &&& (forall|i: int|
                        0 <= i < m.alpha@.len() ==> (if targets@[i] {
                            #[trigger] m.alpha@[i]@ >= 0
                        } else {
                            m.alpha@[i]@ <= 0
                        }))
                    &&& (exists|pre: Seq<Fx>|
                        {
                            &&& #[trigger] pre.len() == targets@.len()
                            &&& (forall|i: int| 0 <= i < pre.len() ==> 0 <= #[trigger] pre[i]@ <= SCALE)
                            &&& signed_sum(pre, targets@) == imin(
                                nu_mass(targets@.len() as int, nu@),
                                SCALE * count_matching(targets@, true),
                            ) - imin(
                                nu_mass(targets@.len() as int, nu@),
                                SCALE * count_matching(targets@, false),
                            )
                            &&& (forall|i: int|
                                0 <= i < pre.len() ==> #[trigger] m.alpha@[i]@ == fx_div(
                                    sgn(targets@[i]) * pre[i]@,
                                    rv@,
                                ))
                            &&& ({
                                let pvec = const_seq(targets@.len(), Fx { bits: 0 });
                                let ones = const_seq(targets@.len(), Fx { bits: SCALE });
                                let fg = grad_q_seq(binary_q(kernel, targets@), pvec, pre);
                                let rpos = margin_val(fg, pre, ones, targets@, true);
                                let rneg = margin_val(fg, pre, ones, targets@, false);
                                &&& rv@ == fx_mul(fx_add(rpos, rneg), SCALE as int / 2)
                                &&& m.rho@ == fx_div(
                                    fx_mul(fx_sub(rpos, rneg), SCALE as int / 2),
                                    rv@,
                                )
                                &&& m.obj@ == fx_div(
                                    fx_div(
                                        fx_mul(
                                            obj_sum(pre, fg, pvec, targets@.len() as int),
                                            SCALE as int / 2,
                                        ),
                                        rv@,
                                    ),
                                    rv@,
                                )
                                &&& (m.converged ==> kkt_within(
                                    fg,
                                    pre,
                                    ones,
                                    targets@,
                                    Some(true),
                                    params.eps@,
                                ) && kkt_within(fg, pre, ones, targets@, Some(false), params.eps@))
                            })
                        })
                },
                None => false,
            }
            &&& (nu_feasible(targets@, nu@) ==> -(targets@.len() as int) < plain_sum(m.alpha@)
                < targets@.len() as int)
        }),
        // A degenerate report can only come from a reachable solver state:
        // some box-feasible coefficient vector on the initializer's
        // equality hyperplane whose normalization is non-positive. On a
        // problem where every such state has positive normalization,
        // success is therefore guaranteed for valid parameters.
        res == Err::<SvmResult, SvmError>(SvmError::DegenerateSolution) ==> nu_params_ok(
            kernel,
            targets@,
            nu,
            params,
        ) && (exists|pre: Seq<Fx>|
            {
                &&& #[trigger] pre.len() == targets@.len()
                &&& (forall|i: int| 0 <= i < pre.len() ==> 0 <= #[trigger] pre[i]@ <= SCALE)
                &&& signed_sum(pre, targets@) == imin(
                    nu_mass(targets@.len() as int, nu@),
                    SCALE * count_matching(targets@, true),
                ) - imin(nu_mass(targets@.len() as int, nu@), SCALE * count_matching(targets@, false))
                &&& ({
                    let pvec = const_seq(targets@.len(), Fx { bits: 0 });
                    let ones = const_seq(targets@.len(), Fx { bits: SCALE });
                    let fg = grad_q_seq(binary_q(kernel, targets@), pvec, pre);
                    fx_mul(
                        fx_add(
                            margin_val(fg, pre, ones, targets@, true),
                            margin_val(fg, pre, ones, targets@, false),
                        ),
                        SCALE as int / 2,
                    ) <= 0
                })
            }),
{
    let n = kernel.size();
    let ok = targets.len() == n && n >= 1 && 0 < nu.bits() && nu.bits() < SCALE && 0
        < params.eps.bits();
    if !ok {
        return Err(SvmError::InvalidParameter);
    }
    proof {
        use_type_invariant(kernel);
        kernel.lemma_sz_bound();
    }
    let init = nu_init(targets, nu);
    let ghost init_s = init@;
    let p = fill(n, Fx::from_bits(0));
    let bounds = fill(n, Fx::one());
    let pk = PermutableKernel::new(kernel, copy_bools(targets));
    let solver = SolverState::new(init, p, copy_bools(targets), pk, bounds, params, true);
    let ghost bounds_s = solver.bounds@;
    let ghost p_s = solver.p@;
    let ghost pk_s = solver.kernel;
    let raw = solver.solve();
    proof {
        assert forall|k: int| 0 <= k < raw.alpha@.len() implies 0 <= #[trigger] raw.alpha@[k]@
            <= SCALE by {
            assert(0 <= raw.alpha@[k]@ <= bounds_s[k]@);
        }
        // Tie the solver's recomputed gradient to the formulation's stated
        // effective matrix and constant vectors.
        assert forall|i: int, j: int|
            0 <= i < raw.alpha@.len() && 0 <= j < raw.alpha@.len() implies #[trigger] pk_s.q(i, j)
            == (binary_q(kernel, targets@))(i, j) by {}
        lemma_grad_seq_agrees(pk_s, binary_q(kernel, targets@), p_s, raw.alpha@);
        assert forall|i: int| 0 <= i < targets@.len() implies p_s[i] == (Fx { bits: 0 }) by {}
        assert(p_s =~= const_seq(targets@.len(), Fx { bits: 0 }));
        assert forall|i: int| 0 <= i < targets@.len() implies bounds_s[i] == (
        Fx { bits: SCALE }) by {}
        assert(bounds_s =~= const_seq(targets@.len(), Fx { bits: SCALE }));
    }
    let rv = match raw.r {
        Some(v) => v,
        None => Fx::from_bits(0),
    };
    if rv.bits() <= 0 {
        proof {
            // The solver's own final coefficients witness the degeneracy.
            assert(raw.alpha@.len() == targets@.len());
        }
        return Err(SvmError::DegenerateSolution);
    }
    let mut alpha: Vec<Fx> = Vec::new();
    let mut i: usize = 0;
    while i < n
        invariant
            i <= n,
            n == targets@.len(),
            raw.alpha@.len() == n,
            rv@ > 0,
            forall|k: int| 0 <= k < n ==> 0 <= #[trigger] raw.alpha@[k]@ <= SCALE,
            alpha@.len() == i,
            forall|k: int|
                0 <= k < i ==> #[trigger] alpha@[k]@ == fx_div(
                    sgn(targets@[k]) * raw.alpha@[k]@,
                    rv@,
                ),
        decreases n - i,
    {
        let s = if targets[i] {
            raw.alpha[i]
        } else {
            raw.alpha[i].neg()
        };
        proof {
            lemma_apply_sign(targets@[i as int], raw.alpha@[i as int]@);
        }
        alpha.push(s.div(rv));
        i += 1;
    }
    let rho = raw.rho.div(rv);
    let obj = raw.obj.div(rv).div(rv);
    proof {
        assert forall|k: int| 0 <= k < alpha@.len() implies iabs(#[trigger] alpha@[k]@) <= fx_div(
            SCALE as int,
            rv@,
        ) && (if targets@[k] {
            alpha@[k]@ >= 0
        } else {
            alpha@[k]@ <= 0
        }) by {
            lemma_apply_sign(targets@[k], raw.alpha@[k]@);
            lemma_div_unit_error(apply_sign(targets@[k], raw.alpha@[k]@), rv@);
        }
        if nu_feasible(targets@, nu@) {
            assert(signed_sum(init_s, targets@) == 0);
            lemma_nu_equality(raw.alpha@, alpha@, targets@, rv@);
        }
    }
    Ok(SvmResult { alpha, rho, r: Some(rv), obj, converged: raw.converged })
}

/// Support vector classification for one-class problems (novelty
/// detection).
///
/// Treats every sample as one implicit class: bounds are one, the linear
/// term is zero, and the initializer places exactly `nu * n` units of mass
/// on the first samples in index order. The solver's equality-preserving
/// steps keep that total, so the returned coefficients lie in `[0, 1]` and
/// sum to exactly `nu * n`. No sign restoration or rescaling applies; the
/// bias and objective are the stated functions of the gradient recomputed
/// at the returned coefficients, and `converged` means that state passes
/// the eps-optimality test.
pub fn fit_one_class<'a>(params: &'a SolverParams, kernel: &'a Kernel, nu: Fx) -> (res: Result<
    SvmResult,
    SvmError,
>)
    ensures
        (res matches Ok(m)) <==> one_class_params_ok(kernel, nu, params),
        res matches Err(e) ==> e == SvmError::InvalidParameter,
        res matches Ok(m) ==> ({
            let zeros = const_seq(kernel.sz(), Fx { bits: 0 });
            let ones = const_seq(kernel.sz(), Fx { bits: SCALE });
            let trues = const_bools(kernel.sz(), true);
            let fg = grad_q_seq(one_class_q(kernel), zeros, m.alpha@);
            &&& m.alpha@.len() == kernel.sz()
            &&& (forall|i: int| 0 <= i < m.alpha@.len() ==> 0 <= #[trigger] m.alpha@[i]@ <= SCALE)
            &&& plain_sum(m.alpha@) == nu@ * kernel.sz()
            &&& m.r is None
            &&& (m.converged ==> kkt_within(fg, m.alpha@, ones, trues, None, params.eps@))
            &&& m.rho@ == rho_val(fg, m.alpha@, ones, trues)
            &&& m.obj@ == fx_mul(
                obj_sum(m.alpha@, fg, zeros, kernel.sz() as int),
                SCALE as int / 2,
            )
        }),
{
    let n = kernel.size();
    let ok = n >= 1 && 0 < nu.bits() && nu.bits() < SCALE && 0 < params.eps.bits();
    if !ok {
        return Err(SvmError::InvalidParameter);
    }
    proof {
        use_type_invariant(kernel);
        kernel.lemma_sz_bound();
    }
    let init = one_class_init(n, nu);
    let ghost init_s = init@;
    let y = fill_bools(n, true);
    let ghost y_s = y@;
    let p = fill(n, Fx::from_bits(0));
    let bounds = fill(n, Fx::one());
    let pk = PermutableKernelOneClass::new(kernel);
    let solver = SolverState::new(init, p, y, pk, bounds, params, false);
    let ghost bounds_s = solver.bounds@;
    let ghost p_s = solver.p@;
    let ghost pk_s = solver.kernel;
    let raw = solver.solve();
    proof {
        lemma_signed_sum_all_true(init_s, y_s);
        lemma_signed_sum_all_true(raw.alpha@, y_s);
        assert forall|i: int| 0 <= i < raw.alpha@.len() implies 0 <= #[trigger] raw.alpha@[i]@
            <= SCALE by {
            assert(0 <= raw.alpha@[i]@ <= bounds_s[i]@);
        }
        // The adapter's matrix is the raw kernel, so the recomputed
        // gradient the solver reported is the stated one.
        assert forall|i: int, j: int|
            0 <= i < raw.alpha@.len() && 0 <= j < raw.alpha@.len() implies #[trigger] pk_s.q(i, j)
            == (one_class_q(kernel))(i, j) by {}
        lemma_grad_seq_agrees(pk_s, one_class_q(kernel), p_s, raw.alpha@);
        assert forall|i: int| 0 <= i < kernel.sz() implies p_s[i] == (Fx { bits: 0 }) by {}
        assert forall|i: int| 0 <= i < kernel.sz() implies bounds_s[i] == (Fx { bits: SCALE }) by {}
        assert(p_s =~= const_seq(kernel.sz(), Fx { bits: 0 }));
        assert(bounds_s =~= const_seq(kernel.sz(), Fx { bits: SCALE }));
        assert(y_s =~= const_bools(kernel.sz(), true));
    }
    Ok(raw)
}

} // verus!
