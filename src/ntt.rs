//! The evaluation form of ring elements: the values of a polynomial at the N
//! roots of x^N + 1, under which the ring product is the pointwise product.
use vstd::prelude::*;

use crate::field::{lemma_mod_step, modq, FalconFelt};
use crate::poly::Polynomial;
use crate::{MODULUS, N};

verus! {

/// A primitive 2N-th root of unity modulo q: PSI^N = -1.
pub const PSI: u32 = 10302;

/// The inverse of `PSI` modulo q.
pub const PSI_INV: u32 = 8974;

/// The inverse of N modulo q.
pub const N_INV: u32 = 12265;

/// b^e reduced modulo q.
pub open spec fn pow_mod(b: int, e: nat) -> int
    decreases e,
{
    if e == 0 {
        1
    } else {
        modq(b * pow_mod(b, (e - 1) as nat))
    }
}

/// The first n terms of the polynomial p at w, sum of p[i] * w^i reduced modulo q.
pub open spec fn peval(p: Seq<int>, w: int, n: nat) -> int
    decreases n,
{
    if n == 0 {
        0
    } else {
        modq(peval(p, w, (n - 1) as nat) + p[n - 1] * pow_mod(w, (n - 1) as nat))
    }
}

/// Evaluation form: value j is p at PSI^(2j + 1), the j-th root of x^N + 1.
pub open spec fn to_eval(p: Seq<int>) -> Seq<int> {
    Seq::new(N as nat, |j: int| peval(p, pow_mod(PSI as int, (2 * j + 1) as nat), N as nat))
}

/// Coefficient form: coefficient k is N^-1 * sum of e[j] * PSI^-(2j + 1)k, written
/// as N^-1 * PSI^-k * (e at PSI^-2k).
pub open spec fn to_coeff(e: Seq<int>) -> Seq<int> {
    Seq::new(
        N as nat,
        |k: int|
            modq(
                modq(N_INV * pow_mod(PSI_INV as int, k as nat)) * peval(
                    e,
                    pow_mod(PSI_INV as int, (2 * k) as nat),
                    N as nat,
                ),
            ),
    )
}

/// Pointwise product.
pub open spec fn hadamard(a: Seq<int>, b: Seq<int>) -> Seq<int> {
    Seq::new(N as nat, |j: int| modq(a[j] * b[j]))
}

/// Pointwise difference.
pub open spec fn eval_sub(a: Seq<int>, b: Seq<int>) -> Seq<int> {
    Seq::new(N as nat, |j: int| modq(a[j] - b[j]))
}

fn mulq(a: u32, b: u32) -> (r: u32)
    requires
        a < MODULUS,
        b < MODULUS,
    ensures
        r == modq(a * b),
        r < MODULUS,
{
    proof {
        assert(a * b < MODULUS * MODULUS) by (nonlinear_arith)
            requires
                a < MODULUS,
                b < MODULUS,
        ;
    }
    (a * b) % MODULUS
}

fn pow_q(b: u32, e: usize) -> (r: u32)
    requires
        b < MODULUS,
    ensures
        r == pow_mod(b as int, e as nat),
        r < MODULUS,
{
    let mut r: u32 = 1;
    let mut i: usize = 0;
    while i < e
        invariant
            b < MODULUS,
            i <= e,
            r == pow_mod(b as int, i as nat),
            r < MODULUS,
        decreases e - i,
    {
        r = mulq(b, r);
        i = i + 1;
    }
    r
}

/// Evaluates the N values of `p` at `w` modulo q.
fn eval_at(p: &Vec<FalconFelt>, w: u32) -> (r: u32)
    requires
        p.len() == N,
        forall|i: int| 0 <= i < N ==> (#[trigger] p[i]).wf(),
        w < MODULUS,
    ensures
        r == peval(p@.map_values(|c: FalconFelt| c.val()), w as int, N as nat),
        r < MODULUS,
{
    let ghost s = p@.map_values(|c: FalconFelt| c.val());
    let mut acc: u32 = 0;
    let mut wp: u32 = 1;
    let mut i: usize = 0;
    while i < N
        invariant
            p.len() == N,
            forall|i: int| 0 <= i < N ==> (#[trigger] p[i]).wf(),
            s == p@.map_values(|c: FalconFelt| c.val()),
            w < MODULUS,
            i <= N,
            acc < MODULUS,
            wp < MODULUS,
            acc == peval(s, w as int, i as nat),
            wp == pow_mod(w as int, i as nat),
        decreases N - i,
    {
        let c: u32 = p[i].value();
        let t = mulq(c, wp);
        let prev = acc;
        acc = (acc + t) % MODULUS;
        proof {
            lemma_mod_step(peval(s, w as int, i as nat), prev as int, c * wp);
        }
        wp = mulq(w, wp);
        i = i + 1;
    }
    acc
}

/// A ring element in evaluation form: its values at the N roots of x^N + 1.
#[derive(Clone, Debug, PartialEq, Eq)]
pub struct EvalForm {
    values: Vec<FalconFelt>,
}

impl View for EvalForm {
    type V = Seq<int>;

    closed spec fn view(&self) -> Seq<int> {
        self.values@.map_values(|c: FalconFelt| c.val())
    }
}

impl EvalForm {
    /// N canonical values.
    pub closed spec fn wf(&self) -> bool {
        &&& self.values.len() == N
        &&& forall|i: int| 0 <= i < N ==> (#[trigger] self.values[i]).wf()
    }

    /// Pointwise product: the evaluation form of the ring product.
    pub fn hadamard_mul(&self, other: &EvalForm) -> (r: EvalForm)
        requires
            self.wf(),
            other.wf(),
        ensures
            r.wf(),
            r@ == hadamard(self@, other@),
    {
        let mut out: Vec<FalconFelt> = Vec::new();
        let mut j: usize = 0;
        while j < N
            invariant
                self.wf(),
                other.wf(),
                j <= N,
                out.len() == j,
                forall|i: int| 0 <= i < j ==> (#[trigger] out[i]).wf(),
                forall|i: int| 0 <= i < j ==> (#[trigger] out[i]).val() == modq(self@[i] * other@[i]),
            decreases N - j,
        {
            out.push(self.values[j].mul(&other.values[j]));
            j = j + 1;
        }
        let r = EvalForm { values: out };
        assert(r@ =~= hadamard(self@, other@));
        r
    }

    /// Pointwise difference: the evaluation form of the ring difference.
    pub fn sub(&self, other: &EvalForm) -> (r: EvalForm)
        requires
            self.wf(),
            other.wf(),
        ensures
            r.wf(),
            r@ == eval_sub(self@, other@),
    {
        let mut out: Vec<FalconFelt> = Vec::new();
        let mut j: usize = 0;
        while j < N
            invariant
                self.wf(),
                other.wf(),
                j <= N,
                out.len() == j,
                forall|i: int| 0 <= i < j ==> (#[trigger] out[i]).wf(),
                forall|i: int| 0 <= i < j ==> (#[trigger] out[i]).val() == modq(self@[i] - other@[i]),
            decreases N - j,
        {
            out.push(self.values[j].sub(&other.values[j]));
            j = j + 1;
        }
        let r = EvalForm { values: out };
        assert(r@ =~= eval_sub(self@, other@));
        r
    }

    /// Returns the ring element whose evaluation form this is.
    pub fn to_coefficient_form(&self) -> (r: Polynomial)
        requires
            self.wf(),
        ensures
            r.wf(),
            r@ == to_coeff(self@),
    {
        let mut out: Vec<FalconFelt> = Vec::new();
        let mut k: usize = 0;
        while k < N
            invariant
                self.wf(),
                k <= N,
                out.len() == k,
                forall|i: int| 0 <= i < k ==> (#[trigger] out[i]).wf(),
                forall|i: int| 0 <= i < k ==> (#[trigger] out[i]).val() == to_coeff(self@)[i],
            decreases N - k,
        {
            let scale = mulq(N_INV, pow_q(PSI_INV, k));
            let v = eval_at(&self.values, pow_q(PSI_INV, 2 * k));
            out.push(FalconFelt::from_canonical(mulq(scale, v)));
            k = k + 1;
        }
        let r = Polynomial::new(out);
        proof {
            r.lemma_coefficients();
            assert(r@ =~= to_coeff(self@));
        }
        r
    }
}

impl Polynomial {
    /// Returns the values of this polynomial at the N roots of x^N + 1.
    pub fn to_evaluation_form(&self) -> (r: EvalForm)
        requires
            self.wf(),
        ensures
            r.wf(),
            r@ == to_eval(self@),
    {
        let coeffs = self.to_vec();
        proof {
            self.lemma_coefficients();
            self.lemma_wf_coefficients();
        }
        let mut out: Vec<FalconFelt> = Vec::new();
        let mut j: usize = 0;
        while j < N
            invariant
                coeffs@ == self.coefficients(),
                self@ == self.coefficients().map_values(|c: FalconFelt| c.val()),
                coeffs.len() == N,
                forall|i: int| 0 <= i < N ==> (#[trigger] coeffs[i]).wf(),
                j <= N,
                out.len() == j,
                forall|i: int| 0 <= i < j ==> (#[trigger] out[i]).wf(),
                forall|i: int| 0 <= i < j ==> (#[trigger] out[i]).val() == to_eval(self@)[i],
            decreases N - j,
        {
            let v = eval_at(&coeffs, pow_q(PSI, 2 * j + 1));
            out.push(FalconFelt::from_canonical(v));
            j = j + 1;
        }
        let r = EvalForm { values: out };
        assert(r@ =~= to_eval(self@));
        r
    }
}

} // verus!
