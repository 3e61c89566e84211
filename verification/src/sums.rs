//! Sums of coefficient vectors, and the lemmas the solver's equality
//! constraint rests on.

use vstd::prelude::*;

use crate::fixed::Fx;

verus! {

/// Sign of a label: `+1` for a positive target, `-1` for a negative one.
pub open spec fn sgn(b: bool) -> int {
    if b {
        1
    } else {
        -1
    }
}

/// `x` with the sign of label `b` attached.
pub open spec fn apply_sign(b: bool, x: int) -> int {
    if b {
        x
    } else {
        -x
    }
}

/// Attaching a sign is the same as multiplying by it.
pub proof fn lemma_apply_sign(b: bool, x: int)
    ensures
        apply_sign(b, x) == sgn(b) * x,
{
    if b {
        assert(1 * x == x) by (nonlinear_arith);
    } else {
        assert(-1 * x == -x) by (nonlinear_arith);
    }
}

/// `sum_i sgn(y[i]) * a[i]`, the left-hand side of the solver's linear
/// equality constraint, evaluated exactly over the unit counts.
pub open spec fn signed_sum(a: Seq<Fx>, y: Seq<bool>) -> int
    decreases a.len(),
{
    if a.len() == 0 {
        0
    } else {
        signed_sum(a.drop_last(), y.drop_last()) + sgn(y[a.len() - 1]) * a.last()@
    }
}

/// `sum_i a[i]`, exactly over the unit counts.
pub open spec fn plain_sum(a: Seq<Fx>) -> int
    decreases a.len(),
{
    if a.len() == 0 {
        0
    } else {
        plain_sum(a.drop_last()) + a.last()@
    }
}

/// How many entries of `y` equal `v`.
pub open spec fn count_matching(y: Seq<bool>, v: bool) -> int
    decreases y.len(),
{
    if y.len() == 0 {
        0
    } else {
        count_matching(y.drop_last(), v) + if y.last() == v {
            1int
        } else {
            0int
        }
    }
}

/// Replacing one entry moves the signed sum by the signed difference of the
/// old and new entries.
pub proof fn lemma_signed_sum_update(a: Seq<Fx>, y: Seq<bool>, i: int, v: Fx)
    requires
        a.len() == y.len(),
        0 <= i < a.len(),
    ensures
        signed_sum(a.update(i, v), y) == signed_sum(a, y) + sgn(y[i]) * (v@ - a[i]@),
    decreases a.len(),
{
    let au = a.update(i, v);
    if i == a.len() - 1 {
        assert(au.drop_last() =~= a.drop_last());
        assert(sgn(y[i]) * v@ - sgn(y[i]) * a[i]@ == sgn(y[i]) * (v@ - a[i]@)) by (nonlinear_arith);
    } else {
        assert(au.drop_last() =~= a.drop_last().update(i, v));
        lemma_signed_sum_update(a.drop_last(), y.drop_last(), i, v);
        assert(au.last() == a.last());
    }
}

/// On an all-positive label vector the signed sum is the plain sum.
pub proof fn lemma_signed_sum_all_true(a: Seq<Fx>, y: Seq<bool>)
    requires
        a.len() == y.len(),
        forall|i: int| 0 <= i < y.len() ==> y[i],
    ensures
        signed_sum(a, y) == plain_sum(a),
    decreases a.len(),
{
    if a.len() > 0 {
        lemma_signed_sum_all_true(a.drop_last(), y.drop_last());
    }
}

/// Restoring the label sign on every entry turns the signed sum into the
/// plain sum of the restored vector.
pub proof fn lemma_sign_restore(a: Seq<Fx>, b: Seq<Fx>, y: Seq<bool>)
    requires
        a.len() == y.len(),
        b.len() == y.len(),
        forall|i: int| 0 <= i < y.len() ==> #[trigger] b[i]@ == sgn(y[i]) * a[i]@,
    ensures
        plain_sum(b) == signed_sum(a, y),
    decreases a.len(),
{
    if a.len() > 0 {
        lemma_sign_restore(a.drop_last(), b.drop_last(), y.drop_last());
    }
}

/// A coefficient vector of zeroes has signed sum zero.
pub proof fn lemma_signed_sum_zero(a: Seq<Fx>, y: Seq<bool>)
    requires
        a.len() == y.len(),
        forall|i: int| 0 <= i < a.len() ==> #[trigger] a[i]@ == 0,
    ensures
        signed_sum(a, y) == 0,
    decreases a.len(),
{
    if a.len() > 0 {
        lemma_signed_sum_zero(a.drop_last(), y.drop_last());
    }
}

/// Appending an entry adds its signed value to the signed sum.
pub proof fn lemma_signed_sum_push(a: Seq<Fx>, y: Seq<bool>, x: Fx, v: bool)
    requires
        a.len() == y.len(),
    ensures
        signed_sum(a.push(x), y.push(v)) == signed_sum(a, y) + sgn(v) * x@,
{
    assert(a.push(x).drop_last() =~= a);
    assert(y.push(v).drop_last() =~= y);
}

/// Appending an entry adds its value to the plain sum.
pub proof fn lemma_plain_sum_push(a: Seq<Fx>, x: Fx)
    ensures
        plain_sum(a.push(x)) == plain_sum(a) + x@,
{
    assert(a.push(x).drop_last() =~= a);
}

/// Appending an entry to a label vector counts it once.
pub proof fn lemma_count_push(y: Seq<bool>, v: bool, w: bool)
    ensures
        count_matching(y.push(w), v) == count_matching(y, v) + if w == v {
            1int
        } else {
            0int
        },
{
    assert(y.push(w).drop_last() =~= y);
}

} // verus!
