//! Elements of the ring Z_q[x]/(x^N + 1) in coefficient form.
use vstd::prelude::*;

use crate::field::{lemma_mod_step, modq, FalconFelt};
use crate::{MODULUS, N};

verus! {

/// Representative of a coefficient nearest zero, in (-q/2, q/2].
pub open spec fn centered(v: int) -> int {
    if v > MODULUS / 2 {
        v - MODULUS
    } else {
        v
    }
}

/// Sum of the squared centered coefficients.
pub open spec fn norm_sq(s: Seq<int>) -> int
    decreases s.len(),
{
    if s.len() == 0 {
        0
    } else {
        norm_sq(s.drop_last()) + centered(s.last()) * centered(s.last())
    }
}

/// Each squared centered coefficient is at most (q/2)^2.
pub proof fn lemma_norm_bound(s: Seq<int>)
    requires
        forall|i: int| 0 <= i < s.len() ==> 0 <= #[trigger] s[i] < MODULUS,
    ensures
        0 <= norm_sq(s) <= s.len() * 37748736,
    decreases s.len(),
{
    if s.len() > 0 {
        let c = centered(s.last());
        assert(0 <= c * c <= 37748736) by (nonlinear_arith)
            requires
                -6144 <= c <= 6144,
        ;
        lemma_norm_bound(s.drop_last());
    }
}

/// The i-th term of coefficient k of a * b, reduced by x^N = -1.
pub open spec fn neg_term(a: Seq<int>, b: Seq<int>, k: int, i: int) -> int {
    if i <= k {
        a[i] * b[k - i]
    } else {
        -(a[i] * b[N + k - i])
    }
}

/// Sum of the first n terms of coefficient k of a * b.
pub open spec fn conv_sum(a: Seq<int>, b: Seq<int>, k: int, n: nat) -> int
    decreases n,
{
    if n == 0 {
        0
    } else {
        conv_sum(a, b, k, (n - 1) as nat) + neg_term(a, b, k, n - 1)
    }
}

/// Product in Z_q[x]/(x^N + 1), coefficient-wise.
pub open spec fn ring_mul(a: Seq<int>, b: Seq<int>) -> Seq<int> {
    Seq::new(N as nat, |k: int| modq(conv_sum(a, b, k, N as nat)))
}

/// Difference in Z_q[x]/(x^N + 1), coefficient-wise.
pub open spec fn ring_sub(a: Seq<int>, b: Seq<int>) -> Seq<int> {
    Seq::new(N as nat, |k: int| modq(a[k] - b[k]))
}

/// Holds of a sequence of N canonical coefficients.
pub open spec fn is_ring_elem(s: Seq<int>) -> bool {
    s.len() == N && forall|i: int| 0 <= i < s.len() ==> 0 <= #[trigger] s[i] < MODULUS
}

/// A polynomial of degree below N with coefficients in Z_q.
#[derive(Clone, Debug, PartialEq, Eq)]
pub struct Polynomial {
    coefficients: Vec<FalconFelt>,
}

impl View for Polynomial {
    type V = Seq<int>;

    closed spec fn view(&self) -> Seq<int> {
        self.coefficients@.map_values(|c: FalconFelt| c.val())
    }
}

impl Polynomial {
    /// N coefficients, each canonical.
    pub closed spec fn wf(&self) -> bool {
        &&& self.coefficients.len() == N
        &&& forall|i: int| 0 <= i < N ==> (#[trigger] self.coefficients[i]).wf()
    }

    pub proof fn lemma_wf(&self)
        requires
            self.wf(),
        ensures
            is_ring_elem(self@),
    {
        assert forall|i: int| 0 <= i < self@.len() implies 0 <= #[trigger] self@[i] < MODULUS by {
            self.coefficients[i].lemma_val_bound();
        }
    }

    /// Builds a polynomial from its N coefficients, lowest degree first.
    pub fn new(coefficients: Vec<FalconFelt>) -> (r: Polynomial)
        requires
            coefficients.len() == N,
            forall|i: int| 0 <= i < N ==> (#[trigger] coefficients[i]).wf(),
        ensures
            r.wf(),
            r.coefficients() == coefficients@,
    {
        Polynomial { coefficients }
    }

    /// The coefficients, lowest degree first.
    pub closed spec fn coefficients(&self) -> Seq<FalconFelt> {
        self.coefficients@
    }

    pub proof fn lemma_coefficients(&self)
        ensures
            self@ == self.coefficients().map_values(|c: FalconFelt| c.val()),
    {
    }

    pub proof fn lemma_wf_coefficients(&self)
        requires
            self.wf(),
        ensures
            self.coefficients().len() == N,
            forall|i: int| 0 <= i < N ==> (#[trigger] self.coefficients()[i]).wf(),
    {
    }

    /// The coefficient of x^i.
    pub fn coefficient(&self, i: usize) -> (r: FalconFelt)
        requires
            self.wf(),
            i < N,
        ensures
            r.wf(),
            r.val() == self@[i as int],
    {
        self.coefficients[i]
    }

    /// The coefficients, lowest degree first.
    pub fn to_vec(&self) -> (r: Vec<FalconFelt>)
        ensures
            r@ == self.coefficients(),
    {
        self.coefficients.clone()
    }

    /// Sum of the squared centered coefficients.
    pub fn norm_squared(&self) -> (r: u64)
        requires
            self.wf(),
        ensures
            r == norm_sq(self@),
    {
        let mut sum: u64 = 0;
        let mut i: usize = 0;
        while i < N
            invariant
                self.wf(),
                i <= N,
                sum == norm_sq(self@.take(i as int)),
                sum <= i * 37748736,
            decreases N - i,
        {
            let v: u32 = self.coefficients[i].value();
            let c: i64 = if v > MODULUS / 2 {
                v as i64 - MODULUS as i64
            } else {
                v as i64
            };
            proof {
                assert(c * c <= 37748736) by (nonlinear_arith)
                    requires
                        -6144 <= c <= 6144,
                ;
                assert(c * c >= 0) by (nonlinear_arith);
                assert(self@.take(i + 1).drop_last() == self@.take(i as int));
            }
            let sq: u64 = (c * c) as u64;
            sum = sum + sq;
            i = i + 1;
        }
        assert(self@.take(N as int) == self@);
        sum
    }

    /// Difference in Z_q[x]/(x^N + 1).
    pub fn sub(&self, other: &Polynomial) -> (r: Polynomial)
        requires
            self.wf(),
            other.wf(),
        ensures
            r.wf(),
            r@ == ring_sub(self@, other@),
    {
        let mut out: Vec<FalconFelt> = Vec::new();
        let mut k: usize = 0;
        while k < N
            invariant
                self.wf(),
                other.wf(),
                k <= N,
                out.len() == k,
                forall|j: int| 0 <= j < k ==> (#[trigger] out[j]).wf(),
                forall|j: int| 0 <= j < k ==> (#[trigger] out[j]).val() == modq(self@[j] - other@[j]),
            decreases N - k,
        {
            out.push(self.coefficients[k].sub(&other.coefficients[k]));
            k = k + 1;
        }
        let r = Polynomial { coefficients: out };
        assert(r@ =~= ring_sub(self@, other@));
        r
    }

    /// Product in Z_q[x]/(x^N + 1), computed term by term.
    pub fn mul(&self, other: &Polynomial) -> (r: Polynomial)
        requires
            self.wf(),
            other.wf(),
        ensures
            r.wf(),
            r@ == ring_mul(self@, other@),
    {
        proof {
            self.lemma_wf();
            other.lemma_wf();
        }
        let mut out: Vec<FalconFelt> = Vec::new();
        let mut k: usize = 0;
        while k < N
            invariant
                self.wf(),
                other.wf(),
                is_ring_elem(self@),
                is_ring_elem(other@),
                k <= N,
                out.len() == k,
                forall|j: int| 0 <= j < k ==> (#[trigger] out[j]).wf(),
                forall|j: int|
                    0 <= j < k ==> (#[trigger] out[j]).val() == modq(
                        conv_sum(self@, other@, j, N as nat),
                    ),
            decreases N - k,
        {
            let mut acc: u32 = 0;
            let mut i: usize = 0;
            while i < N
                invariant
                    self.wf(),
                    other.wf(),
                    is_ring_elem(self@),
                    is_ring_elem(other@),
                    k < N,
                    i <= N,
                    acc < MODULUS,
                    acc == modq(conv_sum(self@, other@, k as int, i as nat)),
                decreases N - i,
            {
                let a: u32 = self.coefficients[i].value();
                let prev = acc;
                if i <= k {
                    let b: u32 = other.coefficients[k - i].value();
                    proof {
                        assert(a * b < MODULUS * MODULUS) by (nonlinear_arith)
                            requires
                                a < MODULUS,
                                b < MODULUS,
                        ;
                    }
                    let t: u32 = (a * b) % MODULUS;
                    acc = (acc + t) % MODULUS;
                    proof {
                        lemma_mod_step(
                            conv_sum(self@, other@, k as int, i as nat),
                            prev as int,
                            a * b,
                        );
                    }
                } else {
                    let b: u32 = other.coefficients[N + k - i].value();
                    proof {
                        assert(a * b < MODULUS * MODULUS) by (nonlinear_arith)
                            requires
                                a < MODULUS,
                                b < MODULUS,
                        ;
                    }
                    let t: u32 = (a * b) % MODULUS;
                    acc = (acc + MODULUS - t) % MODULUS;
                    proof {
                        lemma_mod_step(
                            conv_sum(self@, other@, k as int, i as nat),
                            prev as int,
                            a * b,
                        );
                    }
                }
                i = i + 1;
            }
            out.push(FalconFelt::from_canonical(acc));
            k = k + 1;
        }
        let r = Polynomial { coefficients: out };
        assert(r@ =~= ring_mul(self@, other@));
        r
    }
}

} // verus!
