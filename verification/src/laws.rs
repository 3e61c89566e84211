//! Library-wide laws: purity of the decision function, and the bounds that
//! tie the Nu formulation's rescaled coefficients back to the equality
//! constraint the solver preserved.

use vstd::prelude::*;

use crate::fixed::{fx_add, fx_div, fx_mul, fx_sub, iabs, Fx, MAX_BITS, SCALE};
use crate::solver::{decision_sum, margin_val, obj_sum, rho_val, SvmResult};
use crate::sums::{plain_sum, sgn, signed_sum};

verus! {

/// The decision function is pure: two evaluations of the same model on the
/// same kernel column are the same value, because `predict` guarantees that
/// each result equals the one decision value determined by the model and
/// the column.
pub proof fn lemma_predict_pure(m: SvmResult, kcol: Seq<Fx>, r1: int, r2: int)
    requires
        r1 == fx_sub(decision_sum(m.alpha@, kcol, m.alpha@.len() as int), m.rho@),
        r2 == fx_sub(decision_sum(m.alpha@, kcol, m.alpha@.len() as int), m.rho@),
    ensures
        r1 == r2,
{
}

/// The reported bias, normalization and objective are functions of the
/// final coefficients alone, the problem data being equal: two solver runs
/// that end on the same coefficients — and the solver's contracts pin each
/// report to the gradient recomputed at those coefficients — report the
/// same model. Determinism of the final coefficients themselves is a
/// property of the whole iteration and is not stated as a contract.
pub proof fn lemma_reports_determined_by_coefficients(
    g: Seq<Fx>,
    a: Seq<Fx>,
    b: Seq<Fx>,
    y: Seq<bool>,
    p: Seq<Fx>,
    rho1: int,
    rho2: int,
    r1: int,
    r2: int,
    obj1: int,
    obj2: int,
)
    requires
        rho1 == rho_val(g, a, b, y),
        rho2 == rho_val(g, a, b, y),
        r1 == fx_mul(
            fx_add(margin_val(g, a, b, y, true), margin_val(g, a, b, y, false)),
            SCALE as int / 2,
        ),
        r2 == fx_mul(
            fx_add(margin_val(g, a, b, y, true), margin_val(g, a, b, y, false)),
            SCALE as int / 2,
        ),
        obj1 == fx_mul(obj_sum(a, g, p, a.len() as int), SCALE as int / 2),
        obj2 == fx_mul(obj_sum(a, g, p, a.len() as int), SCALE as int / 2),
    ensures
        rho1 == rho2,
        r1 == r2,
        obj1 == obj2,
{
}

/// Dividing a coefficient of magnitude at most one by a positive `r` loses
/// less than one unit, measured in the numerator's scale: the quotient `q =
/// fx_div(x, r)` satisfies `|SCALE * x - r * q| <= r - 1`, and its
/// magnitude never exceeds that of the divided unit bound.
pub proof fn lemma_div_unit_error(x: int, r: int)
    requires
        -(SCALE as int) <= x <= SCALE as int,
        0 < r,
    ensures
        -(r - 1) <= SCALE * x - r * fx_div(x, r) <= r - 1,
        iabs(fx_div(x, r)) <= fx_div(SCALE as int, r),
{
    let s = SCALE as int;
    let u = iabs(x);
    let m = u * s / r;
    let mm = s * s / r;
    vstd::arithmetic::mul::lemma_mul_inequality(u, s, s);
    vstd::arithmetic::div_mod::lemma_fundamental_div_mod(u * s, r);
    vstd::arithmetic::div_mod::lemma_fundamental_div_mod(s * s, r);
    vstd::arithmetic::div_mod::lemma_div_pos_is_pos(u * s, r);
    vstd::arithmetic::div_mod::lemma_div_pos_is_pos(s * s, r);
    vstd::arithmetic::div_mod::lemma_div_is_ordered(u * s, s * s, r);
    assert(mm <= mm * r) by (nonlinear_arith)
        requires
            0 <= mm,
            1 <= r,
    ;
    assert(mm * r <= s * s);
    assert(m <= mm <= s * s < MAX_BITS);
    let rem = (u * s) % r;
    assert(u * s == r * m + rem && 0 <= rem < r);
    if x >= 0 {
        assert(fx_div(x, r) == m);
        assert(SCALE * x - r * m == rem);
    } else {
        assert(fx_div(x, r) == -m);
        assert(SCALE * x == -(r * m + rem));
        assert(r * (-m) == -(r * m)) by (nonlinear_arith);
        assert(SCALE * x - r * (-m) == -rem);
    }
}

/// The rescaled plain sum `ps` lies within `len * (r - 1)` (in the
/// numerator's scale) of the preserved signed sum `ss`.
pub open spec fn drift_bounded(ss: int, len: int, r: int, ps: int) -> bool {
    SCALE * ss - len * (r - 1) <= r * ps <= SCALE * ss + len * (r - 1)
}

/// Summed over a whole coefficient vector, the per-entry division error
/// stays below one unit per sample: for `out_i = fx_div(y_i * pre_i, r)`,
/// the rescaled plain sum tracks the preserved signed sum to within
/// `len * (r - 1)` in the numerator's scale.
pub proof fn lemma_scaled_drift(pre: Seq<Fx>, out: Seq<Fx>, y: Seq<bool>, r: int)
    requires
        pre.len() == y.len(),
        out.len() == y.len(),
        0 < r,
        forall|i: int| 0 <= i < pre.len() ==> 0 <= #[trigger] pre[i]@ <= SCALE,
        forall|i: int| 0 <= i < out.len() ==> #[trigger] out[i]@ == fx_div(sgn(y[i]) * pre[i]@, r),
    ensures
        drift_bounded(signed_sum(pre, y), pre.len() as int, r, plain_sum(out)),
    decreases pre.len(),
{
    if pre.len() == 0 {
    } else {
        let n = pre.len() as int;
        let a = pre[n - 1]@;
        let o = out[n - 1]@;
        let x = sgn(y[n - 1]) * a;
        let pp = plain_sum(out.drop_last());
        let ss = signed_sum(pre.drop_last(), y.drop_last());
        lemma_scaled_drift(pre.drop_last(), out.drop_last(), y.drop_last(), r);
        assert(0 <= a <= SCALE);
        if y[n - 1] {
            assert(x == a);
        } else {
            assert(sgn(y[n - 1]) == -1);
            assert(-1 * a == -a) by (nonlinear_arith);
            assert(x == -a);
        }
        lemma_div_unit_error(x, r);
        assert(r * (pp + o) == r * pp + r * o) by (nonlinear_arith);
        assert(n * (r - 1) == (n - 1) * (r - 1) + (r - 1)) by (nonlinear_arith);
        assert(SCALE * (ss + x) == SCALE * ss + SCALE * x) by (nonlinear_arith);
        assert(plain_sum(out) == pp + o);
        assert(signed_sum(pre, y) == ss + x);
        assert(SCALE * x - (r - 1) <= r * o <= SCALE * x + (r - 1));
        assert(SCALE * ss - (n - 1) * (r - 1) <= r * pp <= SCALE * ss + (n - 1) * (r - 1));
        assert(SCALE * signed_sum(pre, y) - n * (r - 1) <= r * plain_sum(out));
        assert(r * plain_sum(out) <= SCALE * signed_sum(pre, y) + n * (r - 1));
        assert(drift_bounded(signed_sum(pre, y), n, r, plain_sum(out)));
    }
}

/// The Nu equality constraint survives rescaling: when the solver's
/// internal coefficients summed (with label signs) to exactly zero, the
/// returned coefficients — each divided by the positive normalization `r` —
/// sum to strictly less than one unit per sample away from zero.
pub proof fn lemma_nu_equality(pre: Seq<Fx>, out: Seq<Fx>, y: Seq<bool>, r: int)
    requires
        pre.len() == y.len(),
        out.len() == y.len(),
        pre.len() >= 1,
        0 < r,
        forall|i: int| 0 <= i < pre.len() ==> 0 <= #[trigger] pre[i]@ <= SCALE,
        forall|i: int| 0 <= i < out.len() ==> #[trigger] out[i]@ == fx_div(sgn(y[i]) * pre[i]@, r),
        signed_sum(pre, y) == 0,
    ensures
        -(out.len() as int) < plain_sum(out) < out.len() as int,
{
    lemma_scaled_drift(pre, out, y, r);
    let n = out.len() as int;
    let ps = plain_sum(out);
    assert(drift_bounded(0, n, r, ps));
    assert(-n < ps < n) by (nonlinear_arith)
        requires
            -(n * (r - 1)) <= r * ps <= n * (r - 1),
            0 < r,
            1 <= n,
    ;
}

} // verus!
