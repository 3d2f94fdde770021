//! Elements of Z_q with q = 12289, and elements of the wider field that the
//! hash works over.
use vstd::prelude::*;

use crate::MODULUS;

use vstd::arithmetic::div_mod::{lemma_add_mod_noop, lemma_mod_add_multiples_vanish, lemma_sub_mod_noop};

verus! {

/// Canonical representative of an integer modulo q.
pub open spec fn modq(x: int) -> int {
    x % (MODULUS as int)
}

/// An element of Z_q, held as its canonical representative in [0, q).
#[derive(Clone, Copy, Debug, PartialEq, Eq)]
pub struct FalconFelt {
    v: u32,
}

impl FalconFelt {
    /// The integer this element stands for, in [0, q).
    pub closed spec fn val(self) -> int {
        self.v as int
    }

    pub proof fn lemma_val_bound(self)
        requires
            self.wf(),
        ensures
            0 <= self.val() < MODULUS,
    {
    }

    pub closed spec fn wf(self) -> bool {
        self.v < MODULUS
    }

    /// Builds the element congruent to `value` modulo q.
    pub fn new(value: i16) -> (r: FalconFelt)
        ensures
            r.wf(),
            r.val() == modq(value as int),
    {
        // adding 3q makes every i16 positive without changing its class
        let w: i32 = value as i32 + 3 * MODULUS as i32;
        let v: u32 = (w as u32) % MODULUS;
        proof {
            assert(modq(value as int) == modq(w as int)) by {
                vstd::arithmetic::div_mod::lemma_mod_multiples_vanish(3, value as int, MODULUS as int);
            }
        }
        FalconFelt { v }
    }

    /// The zero element.
    pub fn zero() -> (r: FalconFelt)
        ensures
            r.wf(),
            r.val() == 0,
    {
        FalconFelt { v: 0 }
    }

    /// The element whose canonical representative is `v`.
    pub fn from_canonical(v: u32) -> (r: FalconFelt)
        requires
            v < MODULUS,
        ensures
            r.wf(),
            r.val() == v,
    {
        FalconFelt { v }
    }

    /// Sum modulo q.
    pub fn add(&self, other: &FalconFelt) -> (r: FalconFelt)
        requires
            self.wf(),
            other.wf(),
        ensures
            r.wf(),
            r.val() == modq(self.val() + other.val()),
    {
        FalconFelt { v: (self.v + other.v) % MODULUS }
    }

    /// Difference modulo q.
    pub fn sub(&self, other: &FalconFelt) -> (r: FalconFelt)
        requires
            self.wf(),
            other.wf(),
        ensures
            r.wf(),
            r.val() == modq(self.val() - other.val()),
    {
        proof {
            lemma_mod_add_multiples_vanish(self.val() - other.val(), MODULUS as int);
        }
        FalconFelt { v: (self.v + MODULUS - other.v) % MODULUS }
    }

    /// Product modulo q.
    pub fn mul(&self, other: &FalconFelt) -> (r: FalconFelt)
        requires
            self.wf(),
            other.wf(),
        ensures
            r.wf(),
            r.val() == modq(self.val() * other.val()),
    {
        proof {
            assert(self.v * other.v < MODULUS * MODULUS) by (nonlinear_arith)
                requires
                    self.v < MODULUS,
                    other.v < MODULUS,
            ;
        }
        FalconFelt { v: (self.v * other.v) % MODULUS }
    }

    /// The canonical representative, in [0, q).
    pub fn value(&self) -> (r: u32)
        requires
            self.wf(),
        ensures
            r as int == self.val(),
            r < MODULUS,
    {
        self.v
    }
}

/// Steps of a running sum kept reduced modulo q.
pub proof fn lemma_mod_step(x: int, acc: int, t: int)
    requires
        acc == modq(x),
    ensures
        modq(acc + modq(t)) == modq(x + t),
        modq(acc + MODULUS - modq(t)) == modq(x - t),
{
    lemma_add_mod_noop(x, t, MODULUS as int);
    lemma_sub_mod_noop(x, t, MODULUS as int);
    lemma_mod_add_multiples_vanish(acc - modq(t), MODULUS as int);
}

/// Modulus of the field that the hash works over: 2^64 - 2^32 + 1.
pub const FELT_MODULUS: u64 = 18446744069414584321;

/// An element of the prime field of order `FELT_MODULUS`, held as its canonical
/// representative. It is a distinct type from `FalconFelt` so that the two
/// moduli are never mixed up.
#[derive(Clone, Copy, Debug, PartialEq, Eq)]
pub struct Felt {
    v: u64,
}

impl Felt {
    /// The integer this element stands for.
    pub closed spec fn val(self) -> int {
        self.v as int
    }

    /// Builds the element congruent to `value` modulo `FELT_MODULUS`.
    pub fn new(value: u64) -> (r: Felt)
        ensures
            r.val() == value as int % FELT_MODULUS as int,
            r.val() < FELT_MODULUS,
    {
        Felt { v: value % FELT_MODULUS }
    }

    /// The zero element.
    pub fn zero() -> (r: Felt)
        ensures
            r.val() == 0,
    {
        Felt { v: 0 }
    }

    /// The element's value as an integer.
    pub fn as_int(&self) -> (r: u64)
        ensures
            r as int == self.val(),
    {
        self.v
    }
}

} // verus!
