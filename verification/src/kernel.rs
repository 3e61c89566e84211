//! Pairwise-similarity storage and the label-permutation adapters.
//!
//! A `Kernel` holds the raw similarity matrix `K(i, j)` row-major. The two
//! adapters expose the effective quadratic-form matrix that the optimizer
//! works on: `Q_ij = y_i * y_j * K(i, j)` for binary classification, and
//! `Q_ij = K(i, j)` unchanged for one-class novelty detection.

use vstd::prelude::*;

use crate::fixed::{fx_neg, Fx};

verus! {

/// A raw kernel matrix: `n` samples, `n * n` similarity values, row-major.
pub struct Kernel {
    n: usize,
    vals: Vec<Fx>,
}

impl Kernel {
    /// The matrix is complete — one value per ordered pair of samples — and
    /// its size arithmetic stays within the machine's address range. Holds
    /// of every value of the type by construction.
    #[verifier::type_invariant]
    pub closed spec fn wf(&self) -> bool {
        self.vals@.len() == self.n * self.n && self.n * self.n <= usize::MAX
    }

    /// The sample count of any kernel is modest enough that per-sample mass
    /// arithmetic in fixed point cannot overflow.
    pub proof fn lemma_sz_bound(&self)
        requires
            self.wf(),
        ensures
            self.sz() <= 0x1_0000_0000nat,
    {
        assert(self.n <= 0x1_0000_0000) by (nonlinear_arith)
            requires
                self.n * self.n <= usize::MAX,
                usize::MAX <= 0xffff_ffff_ffff_ffffu64,
        ;
    }

    /// Number of samples.
    pub closed spec fn sz(&self) -> nat {
        self.n as nat
    }

    /// The stored similarity of samples `i` and `j`, in fixed-point units.
    pub closed spec fn at(&self, i: int, j: int) -> int {
        self.vals@[i * self.n + j]@
    }

    /// Wrap a row-major value vector as a kernel matrix of `n` samples.
    /// Rejects a vector whose length is not exactly `n * n`.
    pub fn new(n: usize, vals: Vec<Fx>) -> (r: Option<Kernel>)
        ensures
            match r {
                Some(k) => k.wf() && k.sz() == n && vals@.len() == n * n && (forall|
                    i: int,
                    j: int,
                |
                    0 <= i < n && 0 <= j < n ==> #[trigger] k.at(i, j) == vals@[i * n + j]@),
                None => vals@.len() != n * n,
            },
    {
        if n == 0 {
            if vals.len() == 0 {
                Some(Kernel { n, vals })
            } else {
                None
            }
        } else if vals.len() / n == n && vals.len() % n == 0 {
            proof {
                vstd::arithmetic::div_mod::lemma_fundamental_div_mod(vals@.len() as int, n as int);
            }
            Some(Kernel { n, vals })
        } else {
            proof {
                if vals@.len() == n * n {
                    vstd::arithmetic::div_mod::lemma_div_multiples_vanish(n as int, n as int);
                    vstd::arithmetic::div_mod::lemma_mod_multiples_basic(n as int, n as int);
                }
            }
            None
        }
    }

    /// Number of samples.
    pub fn size(&self) -> (r: usize)
        ensures
            r == self.sz(),
    {
        self.n
    }

    /// The similarity of samples `i` and `j`.
    pub fn get(&self, i: usize, j: usize) -> (r: Fx)
        requires
            self.wf(),
            i < self.sz(),
            j < self.sz(),
        ensures
            r@ == self.at(i as int, j as int),
    {
        proof {
            lemma_row_major_index(self.n as int, i as int, j as int);
        }
        self.vals[i * self.n + j]
    }
}

/// Index arithmetic for a row-major square matrix.
proof fn lemma_row_major_index(n: int, i: int, j: int)
    requires
        0 <= i < n,
        0 <= j < n,
    ensures
        0 <= i * n + j < n * n,
        i * n + j <= (n - 1) * n + (n - 1),
{
    assert(i * n + j < n * n && i * n + j <= (n - 1) * n + (n - 1)) by (nonlinear_arith)
        requires
            0 <= i < n,
            0 <= j < n,
    ;
}

/// What the optimizer needs of an effective quadratic-form matrix: its size
/// and one row at a time, each entry agreeing with the specification-level
/// matrix `q`.
pub trait PermKernel: Sized {
    /// The adapter is complete and consistent with its raw kernel.
    spec fn wf(&self) -> bool;

    /// Number of samples.
    spec fn sz(&self) -> nat;

    /// The effective matrix entry `Q_ij`, in fixed-point units.
    spec fn q(&self, i: int, j: int) -> int;

    /// Number of samples.
    fn size(&self) -> (r: usize)
        requires
            self.wf(),
        ensures
            r == self.sz(),
    ;

    /// Row `i` of the effective matrix.
    fn row(&self, i: usize) -> (r: Vec<Fx>)
        requires
            self.wf(),
            i < self.sz(),
        ensures
            r@.len() == self.sz(),
            forall|j: int| 0 <= j < r@.len() ==> #[trigger] r@[j]@ == self.q(i as int, j),
    ;
}

/// Adapter for the binary formulations: `Q_ij = y_i * y_j * K(i, j)`, held
/// as the raw kernel plus the boolean label vector.
pub struct PermutableKernel<'a> {
    kernel: &'a Kernel,
    targets: Vec<bool>,
}

impl<'a> PermutableKernel<'a> {
    /// Combine a raw kernel with its labels.
    pub fn new(kernel: &'a Kernel, targets: Vec<bool>) -> (r: PermutableKernel<'a>)
        requires
            kernel.wf(),
            targets@.len() == kernel.sz(),
        ensures
            r.wf(),
            r.sz() == kernel.sz(),
            forall|i: int, j: int|
                0 <= i < kernel.sz() && 0 <= j < kernel.sz() ==> #[trigger] r.q(i, j) == (if targets@[i]
                    == targets@[j] {
                    kernel.at(i, j)
                } else {
                    fx_neg(kernel.at(i, j))
                }),
    {
        PermutableKernel { kernel, targets }
    }
}

impl<'a> PermKernel for PermutableKernel<'a> {
    closed spec fn wf(&self) -> bool {
        self.kernel.wf() && self.targets@.len() == self.kernel.sz()
    }

    closed spec fn sz(&self) -> nat {
        self.kernel.sz()
    }

    closed spec fn q(&self, i: int, j: int) -> int {
        if self.targets@[i] == self.targets@[j] {
            self.kernel.at(i, j)
        } else {
            fx_neg(self.kernel.at(i, j))
        }
    }

    fn size(&self) -> (r: usize) {
        self.kernel.size()
    }

    fn row(&self, i: usize) -> (r: Vec<Fx>) {
        let n = self.kernel.size();
        let mut out: Vec<Fx> = Vec::new();
        let ti = self.targets[i];
        let mut j: usize = 0;
        while j < n
            invariant
                j <= n,
                n == self.sz(),
                i < self.sz(),
                self.wf(),
                ti == self.targets@[i as int],
                out@.len() == j,
                forall|k: int| 0 <= k < j ==> #[trigger] out@[k]@ == self.q(i as int, k),
            decreases n - j,
        {
            let v = self.kernel.get(i, j);
            if ti == self.targets[j] {
                out.push(v);
            } else {
                out.push(v.neg());
            }
            j += 1;
        }
        out
    }
}

/// Adapter for the one-class formulation: labels carry no meaning there, so
/// the effective matrix is the raw kernel itself.
pub struct PermutableKernelOneClass<'a> {
    kernel: &'a Kernel,
}

impl<'a> PermutableKernelOneClass<'a> {
    /// Wrap a raw kernel unchanged.
    pub fn new(kernel: &'a Kernel) -> (r: PermutableKernelOneClass<'a>)
        requires
            kernel.wf(),
        ensures
            r.wf(),
            r.sz() == kernel.sz(),
            forall|i: int, j: int|
                0 <= i < kernel.sz() && 0 <= j < kernel.sz() ==> #[trigger] r.q(i, j) == kernel.at(
                    i,
                    j,
                ),
    {
        PermutableKernelOneClass { kernel }
    }
}

impl<'a> PermKernel for PermutableKernelOneClass<'a> {
    closed spec fn wf(&self) -> bool {
        self.kernel.wf()
    }

    closed spec fn sz(&self) -> nat {
        self.kernel.sz()
    }

    closed spec fn q(&self, i: int, j: int) -> int {
        self.kernel.at(i, j)
    }

    fn size(&self) -> (r: usize) {
        self.kernel.size()
    }

    fn row(&self, i: usize) -> (r: Vec<Fx>) {
        let n = self.kernel.size();
        let mut out: Vec<Fx> = Vec::new();
        let mut j: usize = 0;
        while j < n
            invariant
                j <= n,
                n == self.sz(),
                i < self.sz(),
                self.wf(),
                out@.len() == j,
                forall|k: int| 0 <= k < j ==> #[trigger] out@[k]@ == self.q(i as int, k),
            decreases n - j,
        {
            out.push(self.kernel.get(i, j));
            j += 1;
        }
        out
    }
}

} // verus!
