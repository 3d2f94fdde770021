//! Laws of the evaluation form: it turns the ring product into the pointwise
//! product and the ring difference into the pointwise difference, and the
//! coefficient form undoes it.
use vstd::prelude::*;

use crate::field::modq;
use crate::ntt::{eval_sub, hadamard, peval, pow_mod, to_coeff, to_eval, N_INV, PSI, PSI_INV};
use crate::poly::{conv_sum, is_ring_elem, neg_term, ring_mul, ring_sub};
use crate::{MODULUS, N};

use vstd::arithmetic::div_mod::{
    lemma_add_mod_noop, lemma_mod_twice, lemma_mul_mod_noop, lemma_mul_mod_noop_right,
};
use vstd::arithmetic::power::{
    lemma1_pow, lemma_pow_adds, lemma_pow_distributes, lemma_pow_mod_noop, lemma_pow_multiplies, pow,
};
use vstd::arithmetic::power2::{lemma2_to64, lemma_pow2_adds, lemma_pow2_unfold, pow2};

verus! {

/// Sum of f(0) .. f(n - 1) over the integers.
pub open spec fn fsum(f: spec_fn(int) -> int, n: nat) -> int
    decreases n,
{
    if n == 0 {
        0
    } else {
        fsum(f, (n - 1) as nat) + f(n - 1)
    }
}

/// The terms s[k] * w^k of s evaluated at w.
pub open spec fn ev(s: Seq<int>, w: int) -> spec_fn(int) -> int {
    |k: int| s[k] * pow(w, k as nat)
}

/// Coefficient k of x^i * b reduced by x^N = -1.
pub open spec fn shifted(b: Seq<int>, i: int, k: int) -> int {
    if k >= i {
        b[k - i]
    } else {
        -b[N + k - i]
    }
}

/// The terms of x^i * b evaluated at w.
pub open spec fn shifted_ev(b: Seq<int>, w: int, i: int) -> spec_fn(int) -> int {
    |k: int| shifted(b, i, k) * pow(w, k as nat)
}

/// The terms of coefficient k of a * b.
pub open spec fn conv_terms(a: Seq<int>, b: Seq<int>, k: int) -> spec_fn(int) -> int {
    |i: int| neg_term(a, b, k, i)
}

pub open spec fn row(f: spec_fn(int, int) -> int, k: int) -> spec_fn(int) -> int {
    |i: int| f(k, i)
}

pub open spec fn col(f: spec_fn(int, int) -> int, i: int) -> spec_fn(int) -> int {
    |k: int| f(k, i)
}

pub open spec fn rows(f: spec_fn(int, int) -> int, m: nat) -> spec_fn(int) -> int {
    |k: int| fsum(row(f, k), m)
}

pub open spec fn cols(f: spec_fn(int, int) -> int, n: nat) -> spec_fn(int) -> int {
    |i: int| fsum(col(f, i), n)
}

proof fn lemma_add_cong(x1: int, x2: int, y1: int, y2: int)
    requires
        modq(x1) == modq(x2),
        modq(y1) == modq(y2),
    ensures
        modq(x1 + y1) == modq(x2 + y2),
{
    lemma_add_mod_noop(x1, y1, MODULUS as int);
    lemma_add_mod_noop(x2, y2, MODULUS as int);
}

proof fn lemma_mul_cong(x1: int, x2: int, y1: int, y2: int)
    requires
        modq(x1) == modq(x2),
        modq(y1) == modq(y2),
    ensures
        modq(x1 * y1) == modq(x2 * y2),
{
    lemma_mul_mod_noop(x1, y1, MODULUS as int);
    lemma_mul_mod_noop(x2, y2, MODULUS as int);
}

proof fn lemma_fsum_ext(f: spec_fn(int) -> int, g: spec_fn(int) -> int, n: nat)
    requires
        forall|i: int| 0 <= i < n ==> #[trigger] f(i) == g(i),
    ensures
        fsum(f, n) == fsum(g, n),
    decreases n,
{
    if n > 0 {
        lemma_fsum_ext(f, g, (n - 1) as nat);
    }
}

proof fn lemma_fsum_scale(f: spec_fn(int) -> int, g: spec_fn(int) -> int, c: int, n: nat)
    requires
        forall|i: int| 0 <= i < n ==> #[trigger] g(i) == c * f(i),
    ensures
        fsum(g, n) == c * fsum(f, n),
    decreases n,
{
    if n > 0 {
        lemma_fsum_scale(f, g, c, (n - 1) as nat);
        let s = fsum(f, (n - 1) as nat);
        let t = f(n - 1);
        assert(c * (s + t) == c * s + c * t) by (nonlinear_arith);
    }
}

proof fn lemma_fsum_add(
    f: spec_fn(int) -> int,
    g: spec_fn(int) -> int,
    h: spec_fn(int) -> int,
    n: nat,
)
    requires
        forall|i: int| 0 <= i < n ==> #[trigger] h(i) == f(i) + g(i),
    ensures
        fsum(h, n) == fsum(f, n) + fsum(g, n),
    decreases n,
{
    if n > 0 {
        lemma_fsum_add(f, g, h, (n - 1) as nat);
    }
}

proof fn lemma_fsum_mod(f: spec_fn(int) -> int, g: spec_fn(int) -> int, n: nat)
    requires
        forall|i: int| 0 <= i < n ==> modq(#[trigger] f(i)) == modq(g(i)),
    ensures
        modq(fsum(f, n)) == modq(fsum(g, n)),
    decreases n,
{
    if n > 0 {
        lemma_fsum_mod(f, g, (n - 1) as nat);
        lemma_add_cong(fsum(f, (n - 1) as nat), fsum(g, (n - 1) as nat), f(n - 1), g(n - 1));
    }
}

proof fn lemma_fsum_shift(g: spec_fn(int) -> int, h: spec_fn(int) -> int, n: nat)
    requires
        forall|k: int| 0 <= k < n ==> #[trigger] h(k) == g(k + 1),
    ensures
        fsum(g, n + 1) == g(0) + fsum(h, n),
    decreases n,
{
    assert(fsum(g, n + 1) == fsum(g, n) + g(n as int));
    if n > 0 {
        lemma_fsum_shift(g, h, (n - 1) as nat);
        assert(fsum(h, n) == fsum(h, (n - 1) as nat) + h(n - 1));
        assert(h(n - 1) == g(n as int));
    }
}

proof fn lemma_fubini(f: spec_fn(int, int) -> int, n: nat, m: nat)
    ensures
        fsum(rows(f, m), n) == fsum(cols(f, n), m),
    decreases n,
{
    if n > 0 {
        let n1 = (n - 1) as nat;
        lemma_fubini(f, n1, m);
        let last = row(f, n1 as int);
        assert forall|i: int| 0 <= i < m implies #[trigger] cols(f, n)(i) == cols(f, n1)(i) + last(i) by {
            assert(fsum(col(f, i), n) == fsum(col(f, i), n1) + col(f, i)(n1 as int));
        }
        lemma_fsum_add(cols(f, n1), last, cols(f, n), m);
        assert(fsum(rows(f, m), n) == fsum(rows(f, m), n1) + rows(f, m)(n1 as int));
    } else {
        assert forall|i: int| 0 <= i < m implies #[trigger] cols(f, n)(i) == 0 * cols(f, n)(i) by {}
        lemma_fsum_scale(cols(f, n), cols(f, n), 0, m);
    }
}

proof fn lemma_conv_sum(a: Seq<int>, b: Seq<int>, k: int, n: nat)
    ensures
        conv_sum(a, b, k, n) == fsum(conv_terms(a, b, k), n),
    decreases n,
{
    if n > 0 {
        lemma_conv_sum(a, b, k, (n - 1) as nat);
    }
}

proof fn lemma_pow_mod_is(w: int, e: nat)
    ensures
        pow_mod(w, e) == modq(pow(w, e)),
    decreases e,
{
    reveal(pow);
    if e > 0 {
        lemma_pow_mod_is(w, (e - 1) as nat);
        lemma_mul_mod_noop_right(w, pow(w, (e - 1) as nat), MODULUS as int);
    }
}

proof fn lemma_peval_is(p: Seq<int>, w: int, n: nat)
    ensures
        peval(p, w, n) == modq(fsum(ev(p, w), n)),
    decreases n,
{
    if n > 0 {
        let n1 = (n - 1) as nat;
        lemma_peval_is(p, w, n1);
        lemma_pow_mod_is(w, n1);
        lemma_mod_twice(fsum(ev(p, w), n1), MODULUS as int);
        lemma_mod_twice(pow(w, n1), MODULUS as int);
        lemma_mul_cong(p[n1 as int], p[n1 as int], pow_mod(w, n1), pow(w, n1));
        lemma_add_cong(
            peval(p, w, n1),
            fsum(ev(p, w), n1),
            p[n1 as int] * pow_mod(w, n1),
            p[n1 as int] * pow(w, n1),
        );
    }
}

/// One more shift multiplies the evaluation by w, given w^N = -1 modulo q.
proof fn lemma_shift_step(b: Seq<int>, w: int, i: int)
    requires
        0 <= i < N - 1,
        modq(pow(w, N as nat)) == modq(-1),
    ensures
        modq(fsum(shifted_ev(b, w, i + 1), N as nat)) == modq(w * fsum(shifted_ev(b, w, i), N as nat)),
{
    reveal(pow);
    let g = shifted_ev(b, w, i + 1);
    let h = |k: int| shifted(b, i, k) * pow(w, (k + 1) as nat);
    let n1 = (N - 1) as nat;
    assert forall|k: int| 0 <= k < n1 implies #[trigger] h(k) == g(k + 1) by {
        assert(shifted(b, i + 1, k + 1) == shifted(b, i, k));
    }
    lemma_fsum_shift(g, h, n1);
    let bl = b[N - 1 - i];
    assert(g(0) == -bl);
    let f = shifted_ev(b, w, i);
    assert forall|k: int| 0 <= k < N implies #[trigger] h(k) == w * f(k) by {
        let s = shifted(b, i, k);
        let pk = pow(w, k as nat);
        assert(pow(w, (k + 1) as nat) == w * pk);
        assert(s * (w * pk) == w * (s * pk)) by (nonlinear_arith);
    }
    lemma_fsum_scale(f, h, w, N as nat);
    assert(h(n1 as int) == bl * pow(w, N as nat));
    let rest = fsum(h, n1);
    // w * S_i = rest + bl * w^N and S_(i+1) = rest - bl
    lemma_mul_cong(bl, bl, pow(w, N as nat), -1);
    lemma_add_cong(rest, rest, bl * pow(w, N as nat), bl * -1);
}

/// x^i * b evaluated at w is w^i times b evaluated at w, modulo q.
proof fn lemma_shifted(b: Seq<int>, w: int, i: int)
    requires
        0 <= i < N,
        modq(pow(w, N as nat)) == modq(-1),
    ensures
        modq(fsum(shifted_ev(b, w, i), N as nat)) == modq(pow(w, i as nat) * fsum(ev(b, w), N as nat)),
    decreases i,
{
    reveal(pow);
    let e = fsum(ev(b, w), N as nat);
    if i == 0 {
        lemma_fsum_ext(shifted_ev(b, w, 0), ev(b, w), N as nat);
    } else {
        lemma_shifted(b, w, i - 1);
        lemma_shift_step(b, w, i - 1);
        let s = fsum(shifted_ev(b, w, i - 1), N as nat);
        let p = pow(w, (i - 1) as nat);
        lemma_mul_cong(w, w, s, p * e);
        assert(w * (p * e) == (w * p) * e) by (nonlinear_arith);
    }
}

/// Evaluating a * b at a root w of x^N + 1 gives the product of the evaluations.
proof fn lemma_eval_ring_mul(a: Seq<int>, b: Seq<int>, w: int)
    requires
        a.len() == N,
        b.len() == N,
        modq(pow(w, N as nat)) == modq(-1),
    ensures
        modq(fsum(ev(ring_mul(a, b), w), N as nat)) == modq(
            fsum(ev(a, w), N as nat) * fsum(ev(b, w), N as nat),
        ),
{
    let nn = N as nat;
    let f = |k: int, i: int| neg_term(a, b, k, i) * pow(w, k as nat);
    let f1 = |k: int| conv_sum(a, b, k, nn) * pow(w, k as nat);
    // reduce the coefficients of a * b
    assert forall|k: int| 0 <= k < nn implies modq(#[trigger] ev(ring_mul(a, b), w)(k)) == modq(f1(k)) by {
        lemma_mod_twice(conv_sum(a, b, k, nn), MODULUS as int);
        lemma_mul_cong(
            modq(conv_sum(a, b, k, nn)),
            conv_sum(a, b, k, nn),
            pow(w, k as nat),
            pow(w, k as nat),
        );
    }
    lemma_fsum_mod(ev(ring_mul(a, b), w), f1, nn);
    // write each coefficient as its sum of terms
    assert forall|k: int| 0 <= k < nn implies #[trigger] f1(k) == rows(f, nn)(k) by {
        lemma_conv_sum(a, b, k, nn);
        let r = row(f, k);
        assert forall|i: int| 0 <= i < nn implies #[trigger] r(i) == pow(w, k as nat) * conv_terms(
            a,
            b,
            k,
        )(i) by {
            let x = neg_term(a, b, k, i);
            let y = pow(w, k as nat);
            assert(x * y == y * x) by (nonlinear_arith);
        }
        lemma_fsum_scale(conv_terms(a, b, k), r, pow(w, k as nat), nn);
    }
    lemma_fsum_ext(f1, rows(f, nn), nn);
    lemma_fubini(f, nn, nn);
    let e = fsum(ev(b, w), nn);
    let g = |i: int| ev(a, w)(i) * e;
    assert forall|i: int| 0 <= i < nn implies modq(#[trigger] cols(f, nn)(i)) == modq(g(i)) by {
        let c = col(f, i);
        assert forall|k: int| 0 <= k < nn implies #[trigger] c(k) == a[i] * shifted_ev(b, w, i)(k) by {
            let t = shifted(b, i, k);
            let pk = pow(w, k as nat);
            assert(neg_term(a, b, k, i) == a[i] * t) by (nonlinear_arith)
                requires
                    t == shifted(b, i, k),
                    neg_term(a, b, k, i) == (if i <= k {
                        a[i] * b[k - i]
                    } else {
                        -(a[i] * b[N + k - i])
                    }),
            ;
            assert((a[i] * t) * pk == a[i] * (t * pk)) by (nonlinear_arith);
        }
        lemma_fsum_scale(shifted_ev(b, w, i), c, a[i], nn);
        lemma_shifted(b, w, i);
        let s = fsum(shifted_ev(b, w, i), nn);
        let p = pow(w, i as nat);
        lemma_mul_cong(a[i], a[i], s, p * e);
        assert(a[i] * (p * e) == (a[i] * p) * e) by (nonlinear_arith);
    }
    lemma_fsum_mod(cols(f, nn), g, nn);
    assert forall|i: int| 0 <= i < nn implies #[trigger] g(i) == e * ev(a, w)(i) by {}
    lemma_fsum_scale(ev(a, w), g, e, nn);
}

proof fn lemma_square(e: nat)
    ensures
        modq(pow(PSI as int, 2 * e)) == modq(modq(pow(PSI as int, e)) * modq(pow(PSI as int, e))),
{
    lemma_pow_adds(PSI as int, e, e);
    lemma_mul_mod_noop(pow(PSI as int, e), pow(PSI as int, e), MODULUS as int);
}

/// PSI^N = -1 modulo q.
proof fn lemma_psi_half_order()
    ensures
        modq(pow(PSI as int, N as nat)) == MODULUS - 1,
{
    reveal_with_fuel(pow, 2);
    assert(modq(pow(PSI as int, 1)) == 10302);
    lemma_square(1);
    assert(modq(pow(PSI as int, 2)) == 3400);
    lemma_square(2);
    assert(modq(pow(PSI as int, 4)) == 8340);
    lemma_square(4);
    assert(modq(pow(PSI as int, 8)) == 12149);
    lemma_square(8);
    assert(modq(pow(PSI as int, 16)) == 7311);
    lemma_square(16);
    assert(modq(pow(PSI as int, 32)) == 5860);
    lemma_square(32);
    assert(modq(pow(PSI as int, 64)) == 4134);
    lemma_square(64);
    assert(modq(pow(PSI as int, 128)) == 8246);
    lemma_square(128);
    assert(modq(pow(PSI as int, 256)) == 1479);
    lemma_square(256);
}

proof fn lemma_minus_one_pow(e: nat)
    ensures
        modq(pow(MODULUS - 1, e)) == (if e % 2 == 0 {
            1
        } else {
            MODULUS - 1
        }),
    decreases e,
{
    reveal(pow);
    if e > 0 {
        lemma_minus_one_pow((e - 1) as nat);
        lemma_mul_mod_noop_right(MODULUS - 1, pow(MODULUS - 1, (e - 1) as nat), MODULUS as int);
    }
}

/// PSI^(2j + 1) is a root of x^N + 1 modulo q.
proof fn lemma_root(j: int)
    requires
        0 <= j < N,
    ensures
        modq(pow(pow_mod(PSI as int, (2 * j + 1) as nat), N as nat)) == modq(-1),
{
    let e = (2 * j + 1) as nat;
    let nn = N as nat;
    lemma_pow_mod_is(PSI as int, e);
    lemma_pow_mod_noop(pow(PSI as int, e), nn, MODULUS as int);
    lemma_pow_multiplies(PSI as int, e, nn);
    lemma_pow_multiplies(PSI as int, nn, e);
    assert(e * nn == nn * e) by (nonlinear_arith);
    lemma_pow_mod_noop(pow(PSI as int, nn), e, MODULUS as int);
    lemma_psi_half_order();
    lemma_minus_one_pow(e);
}

/// Multiplicative homomorphism: the evaluation form of a product in
/// Z_q[x]/(x^N + 1) is the pointwise product of the evaluation forms.
pub proof fn lemma_to_eval_mul(a: Seq<int>, b: Seq<int>)
    requires
        a.len() == N,
        b.len() == N,
    ensures
        to_eval(ring_mul(a, b)) == hadamard(to_eval(a), to_eval(b)),
{
    let nn = N as nat;
    assert forall|j: int| 0 <= j < N implies #[trigger] to_eval(ring_mul(a, b))[j] == hadamard(
        to_eval(a),
        to_eval(b),
    )[j] by {
        let w = pow_mod(PSI as int, (2 * j + 1) as nat);
        lemma_root(j);
        lemma_peval_is(ring_mul(a, b), w, nn);
        lemma_peval_is(a, w, nn);
        lemma_peval_is(b, w, nn);
        lemma_eval_ring_mul(a, b, w);
        let ea = fsum(ev(a, w), nn);
        let eb = fsum(ev(b, w), nn);
        lemma_mod_twice(ea, MODULUS as int);
        lemma_mod_twice(eb, MODULUS as int);
        lemma_mul_cong(modq(ea), ea, modq(eb), eb);
    }
    assert(to_eval(ring_mul(a, b)) =~= hadamard(to_eval(a), to_eval(b)));
}

/// The powers z^0, z^1, ...
pub open spec fn gp(z: int) -> spec_fn(int) -> int {
    |j: int| pow(z, j as nat)
}

pub open spec fn shift_fn(f: spec_fn(int) -> int, a: int) -> spec_fn(int) -> int {
    |j: int| f(a + j)
}

/// The kernel of coefficient k of the inverse applied to the term of index i.
pub open spec fn kernel(i: int, k: int) -> int {
    pow(PSI as int, (2 * i) as nat) * pow(PSI_INV as int, (2 * k) as nat)
}

proof fn lemma_pow_cong(x1: int, x2: int, e: nat)
    requires
        modq(x1) == modq(x2),
    ensures
        modq(pow(x1, e)) == modq(pow(x2, e)),
{
    lemma_pow_mod_noop(x1, e, MODULUS as int);
    lemma_pow_mod_noop(x2, e, MODULUS as int);
}

proof fn lemma_fsum_split(f: spec_fn(int) -> int, a: nat, b: nat)
    ensures
        fsum(f, a + b) == fsum(f, a) + fsum(shift_fn(f, a as int), b),
    decreases b,
{
    if b > 0 {
        lemma_fsum_split(f, a, (b - 1) as nat);
        assert(fsum(f, a + b) == fsum(f, (a + b - 1) as nat) + f(a + b - 1));
        assert(fsum(shift_fn(f, a as int), b) == fsum(shift_fn(f, a as int), (b - 1) as nat)
            + shift_fn(f, a as int)(b - 1));
    }
}

proof fn lemma_geom_shift(z: int, a: nat, b: nat)
    ensures
        fsum(shift_fn(gp(z), a as int), b) == pow(z, a) * fsum(gp(z), b),
{
    assert forall|j: int| 0 <= j < b implies #[trigger] shift_fn(gp(z), a as int)(j) == pow(z, a)
        * gp(z)(j) by {
        lemma_pow_adds(z, a, j as nat);
    }
    lemma_fsum_scale(gp(z), shift_fn(gp(z), a as int), pow(z, a), b);
}

proof fn lemma_geom_zero(z: int, m: nat, t: nat)
    requires
        modq(pow(z, m)) == modq(-1),
    ensures
        modq(fsum(gp(z), 2 * m * t)) == 0,
    decreases t,
{
    if t > 0 {
        let t1 = (t - 1) as nat;
        lemma_geom_zero(z, m, t1);
        let a: nat = 2 * m * t1;
        assert(2 * m * t == a + m + m) by (nonlinear_arith)
            requires
                t1 == t - 1,
                a == 2 * m * t1,
        ;
        // the block of 2m terms from a on is z^a (1 + z^m) times the first m powers
        lemma_fsum_split(gp(z), a, m + m);
        lemma_geom_shift(z, a, m + m);
        lemma_fsum_split(gp(z), m, m);
        lemma_geom_shift(z, m, m);
        let s = fsum(gp(z), m);
        lemma_mul_cong(pow(z, m), -1, s, s);
        lemma_add_cong(s, s, pow(z, m) * s, -1 * s);
        let blk = fsum(gp(z), m + m);
        lemma_mul_cong(pow(z, a), pow(z, a), blk, 0);
        lemma_add_cong(fsum(gp(z), a), 0, pow(z, a) * blk, pow(z, a) * 0);
        assert(fsum(gp(z), 2 * m * t) == fsum(gp(z), a) + pow(z, a) * blk);
    } else {
        assert(2 * m * t == 0) by (nonlinear_arith)
            requires
                t == 0,
        ;
    }
}

/// d = 256 * o / 2^e with o odd.
proof fn lemma_odd_split(d: nat) -> (r: (nat, nat))
    requires
        0 < d < 512,
    ensures
        r.0 <= 8,
        r.1 % 2 == 1,
        d * pow2(r.0) == 256 * r.1,
    decreases d,
{
    lemma2_to64();
    if d % 2 == 1 {
        (8, d)
    } else {
        let h = d / 2;
        let (e1, o) = lemma_odd_split(h);
        if e1 == 0 {
            let unit = pow2(e1);
            assert(unit == 1);
            assert(h == 256 * o) by (nonlinear_arith)
                requires
                    h * unit == 256 * o,
                    unit == 1,
            ;
            assert(false);
        }
        let half = pow2((e1 - 1) as nat);
        lemma_pow2_unfold(e1);
        assert(d * half == h * (2 * half)) by (nonlinear_arith)
            requires
                d == 2 * h,
        ;
        ((e1 - 1) as nat, o)
    }
}

/// The N powers of r^2d sum to zero modulo q when r^N = -1 and 0 < d < N.
proof fn lemma_geom_vanish(r: int, d: nat)
    requires
        modq(pow(r, N as nat)) == MODULUS - 1,
        0 < d < N,
    ensures
        modq(fsum(gp(pow(r, 2 * d)), N as nat)) == 0,
{
    let (e, o) = lemma_odd_split(d);
    let m = pow2(e);
    let t = pow2((8 - e) as nat);
    lemma_pow2_adds(e, (8 - e) as nat);
    lemma2_to64();
    let z = pow(r, 2 * d);
    lemma_pow_multiplies(r, 2 * d, m);
    assert(2 * d * m == 512 * o) by (nonlinear_arith)
        requires
            d * m == 256 * o,
    ;
    lemma_pow_multiplies(r, 512, o);
    lemma_pow_mod_noop(pow(r, 512), o, MODULUS as int);
    lemma_minus_one_pow(o);
    lemma_geom_zero(z, m, t);
    assert(2 * m * t == 512) by (nonlinear_arith)
        requires
            m * t == 256,
    ;
}

/// PSI_INV^N = -1 modulo q.
proof fn lemma_psi_inv_half_order()
    ensures
        modq(pow(PSI_INV as int, N as nat)) == MODULUS - 1,
{
    reveal_with_fuel(pow, 2);
    let b = PSI_INV as int;
    assert(modq(pow(b, 1)) == 8974);
    lemma_pow_adds(b, 1, 1);
    lemma_mul_mod_noop(pow(b, 1), pow(b, 1), MODULUS as int);
    assert(modq(pow(b, 2)) == 2859);
    lemma_pow_adds(b, 2, 2);
    lemma_mul_mod_noop(pow(b, 2), pow(b, 2), MODULUS as int);
    assert(modq(pow(b, 4)) == 1696);
    lemma_pow_adds(b, 4, 4);
    lemma_mul_mod_noop(pow(b, 4), pow(b, 4), MODULUS as int);
    assert(modq(pow(b, 8)) == 790);
    lemma_pow_adds(b, 8, 8);
    lemma_mul_mod_noop(pow(b, 8), pow(b, 8), MODULUS as int);
    assert(modq(pow(b, 16)) == 9650);
    lemma_pow_adds(b, 16, 16);
    lemma_mul_mod_noop(pow(b, 16), pow(b, 16), MODULUS as int);
    assert(modq(pow(b, 32)) == 8747);
    lemma_pow_adds(b, 32, 32);
    lemma_mul_mod_noop(pow(b, 32), pow(b, 32), MODULUS as int);
    assert(modq(pow(b, 64)) == 10984);
    lemma_pow_adds(b, 64, 64);
    lemma_mul_mod_noop(pow(b, 64), pow(b, 64), MODULUS as int);
    assert(modq(pow(b, 128)) == 7143);
    lemma_pow_adds(b, 128, 128);
    lemma_mul_mod_noop(pow(b, 128), pow(b, 128), MODULUS as int);
    assert(modq(pow(b, 256)) == 10810);
    lemma_pow_adds(b, 256, 256);
    lemma_mul_mod_noop(pow(b, 256), pow(b, 256), MODULUS as int);
}

/// PSI^e * PSI_INV^e = 1 modulo q.
proof fn lemma_inv_pow(e: nat)
    ensures
        modq(pow(PSI as int, e) * pow(PSI_INV as int, e)) == 1,
{
    lemma_pow_distributes(PSI as int, PSI_INV as int, e);
    assert(modq(PSI as int * PSI_INV as int) == modq(1));
    lemma_pow_cong(PSI as int * PSI_INV as int, 1, e);
    lemma1_pow(e);
}

proof fn lemma_fsum_ones(f: spec_fn(int) -> int, n: nat)
    requires
        forall|i: int| 0 <= i < n ==> #[trigger] f(i) == 1,
    ensures
        fsum(f, n) == n,
    decreases n,
{
    if n > 0 {
        lemma_fsum_ones(f, (n - 1) as nat);
    }
}

proof fn lemma_fsum_single(f: spec_fn(int) -> int, k: int, n: nat)
    requires
        forall|i: int| 0 <= i < n && i != k ==> modq(#[trigger] f(i)) == 0,
    ensures
        modq(fsum(f, n)) == (if 0 <= k < n {
            modq(f(k))
        } else {
            0
        }),
    decreases n,
{
    if n > 0 {
        let n1 = (n - 1) as nat;
        lemma_fsum_single(f, k, n1);
        if n1 == k {
            lemma_add_cong(fsum(f, n1), 0, f(k), f(k));
        } else {
            lemma_add_cong(fsum(f, n1), fsum(f, n1), f(n1 as int), 0);
            if 0 <= k < n1 {
                lemma_add_cong(fsum(f, n1), f(k), 0, 0);
            } else {
                lemma_add_cong(fsum(f, n1), 0, 0, 0);
            }
        }
    }
}

/// Sums of powers of congruent bases are congruent.
proof fn lemma_geom_cong(z1: int, z2: int)
    requires
        modq(z1) == modq(z2),
    ensures
        modq(fsum(gp(z1), N as nat)) == modq(fsum(gp(z2), N as nat)),
{
    assert forall|j: int| 0 <= j < N implies modq(#[trigger] gp(z1)(j)) == modq(gp(z2)(j)) by {
        lemma_pow_cong(z1, z2, j as nat);
    }
    lemma_fsum_mod(gp(z1), gp(z2), N as nat);
}

/// The sum of the kernel's powers is N on the diagonal and 0 off it, modulo q.
proof fn lemma_kernel_sum(i: int, k: int)
    requires
        0 <= i < N,
        0 <= k < N,
    ensures
        modq(fsum(gp(kernel(i, k)), N as nat)) == (if i == k {
            N as int
        } else {
            0
        }),
{
    let a = PSI as int;
    let b = PSI_INV as int;
    if i == k {
        lemma_inv_pow((2 * k) as nat);
        lemma_geom_cong(kernel(i, k), 1);
        assert forall|j: int| 0 <= j < N implies #[trigger] gp(1)(j) == 1 by {
            lemma1_pow(j as nat);
        }
        lemma_fsum_ones(gp(1), N as nat);
    } else if i > k {
        let d = (i - k) as nat;
        lemma_pow_adds(a, 2 * d, (2 * k) as nat);
        lemma_inv_pow((2 * k) as nat);
        let x = pow(a, 2 * d);
        let y = pow(a, (2 * k) as nat) * pow(b, (2 * k) as nat);
        assert(kernel(i, k) == x * y) by (nonlinear_arith)
            requires
                kernel(i, k) == (x * pow(a, (2 * k) as nat)) * pow(b, (2 * k) as nat),
                y == pow(a, (2 * k) as nat) * pow(b, (2 * k) as nat),
        ;
        lemma_mul_cong(x, x, y, 1);
        lemma_geom_cong(kernel(i, k), x);
        lemma_psi_half_order();
        lemma_geom_vanish(a, d);
    } else {
        let d = (k - i) as nat;
        lemma_pow_adds(b, 2 * d, (2 * i) as nat);
        lemma_inv_pow((2 * i) as nat);
        let x = pow(b, 2 * d);
        let y = pow(a, (2 * i) as nat) * pow(b, (2 * i) as nat);
        assert(kernel(i, k) == x * y) by (nonlinear_arith)
            requires
                kernel(i, k) == pow(a, (2 * i) as nat) * (x * pow(b, (2 * i) as nat)),
                y == pow(a, (2 * i) as nat) * pow(b, (2 * i) as nat),
        ;
        lemma_mul_cong(x, x, y, 1);
        lemma_geom_cong(kernel(i, k), x);
        lemma_psi_inv_half_order();
        lemma_geom_vanish(b, d);
    }
}

/// One term of the inverse applied to the forward transform, rewritten over the kernel.
proof fn lemma_term(pi: int, i: nat, j: nat, k: nat)
    ensures
        modq(pi * pow(pow_mod(PSI as int, 2 * j + 1), i) * pow(pow_mod(PSI_INV as int, 2 * k), j))
            == modq(pi * pow(PSI as int, i) * pow(kernel(i as int, k as int), j)),
{
    let a = PSI as int;
    let b = PSI_INV as int;
    let w = pow_mod(a, 2 * j + 1);
    let y = pow_mod(b, 2 * k);
    lemma_pow_mod_is(a, 2 * j + 1);
    lemma_mod_twice(pow(a, 2 * j + 1), MODULUS as int);
    lemma_pow_cong(w, pow(a, 2 * j + 1), i);
    lemma_pow_multiplies(a, 2 * j + 1, i);
    assert((2 * j + 1) * i == i + 2 * i * j) by (nonlinear_arith);
    lemma_pow_adds(a, i, 2 * i * j);
    lemma_pow_multiplies(a, 2 * i, j);
    lemma_pow_mod_is(b, 2 * k);
    lemma_mod_twice(pow(b, 2 * k), MODULUS as int);
    lemma_pow_cong(y, pow(b, 2 * k), j);
    lemma_pow_distributes(pow(a, 2 * i), pow(b, 2 * k), j);
    let aa = pow(w, i);
    let aa2 = pow(a, i) * pow(pow(a, 2 * i), j);
    let bb = pow(y, j);
    let bb2 = pow(pow(b, 2 * k), j);
    lemma_mul_cong(aa, aa2, bb, bb2);
    lemma_mul_cong(pi, pi, aa * bb, aa2 * bb2);
    assert(pi * aa * bb == pi * (aa * bb)) by (nonlinear_arith);
    let q1 = pow(a, i);
    let q2 = pow(pow(a, 2 * i), j);
    assert(pi * (aa2 * bb2) == pi * q1 * (q2 * bb2)) by (nonlinear_arith)
        requires
            aa2 == q1 * q2,
    ;
}

/// Transform inverse law: going to the evaluation form and back gives the
/// ring element unchanged.
pub proof fn lemma_to_coeff_to_eval(p: Seq<int>)
    requires
        is_ring_elem(p),
    ensures
        to_coeff(to_eval(p)) == p,
{
    let nn = N as nat;
    let a = PSI as int;
    let b = PSI_INV as int;
    let e = to_eval(p);
    assert forall|k: int| 0 <= k < N implies #[trigger] to_coeff(e)[k] == p[k] by {
        let y = pow_mod(b, (2 * k) as nat);
        let f = |j: int, i: int| p[i] * pow(pow_mod(a, (2 * j + 1) as nat), i as nat) * pow(y, j as nat);
        // the inner sums are the values of the forward transform
        lemma_peval_is(e, y, nn);
        assert forall|j: int| 0 <= j < nn implies modq(#[trigger] ev(e, y)(j)) == modq(rows(f, nn)(j)) by {
            let w = pow_mod(a, (2 * j + 1) as nat);
            lemma_peval_is(p, w, nn);
            let yj = pow(y, j as nat);
            assert forall|i: int| 0 <= i < nn implies #[trigger] row(f, j)(i) == yj * ev(p, w)(i) by {
                let x = p[i] * pow(w, i as nat);
                assert(x * yj == yj * x) by (nonlinear_arith);
            }
            lemma_fsum_scale(ev(p, w), row(f, j), yj, nn);
            let sj = fsum(ev(p, w), nn);
            lemma_mod_twice(sj, MODULUS as int);
            lemma_mul_cong(modq(sj), sj, yj, yj);
            assert(sj * yj == yj * sj) by (nonlinear_arith);
        }
        lemma_fsum_mod(ev(e, y), rows(f, nn), nn);
        lemma_fubini(f, nn, nn);
        // each column is p[i] PSI^i times a kernel sum
        assert forall|i: int| 0 <= i < nn && i != k implies modq(#[trigger] cols(f, nn)(i)) == 0 by {
            let c = p[i] * pow(a, i as nat);
            let g = |j: int| c * gp(kernel(i, k))(j);
            assert forall|j: int| 0 <= j < nn implies modq(#[trigger] col(f, i)(j)) == modq(g(j)) by {
                lemma_term(p[i], i as nat, j as nat, k as nat);
            }
            lemma_fsum_mod(col(f, i), g, nn);
            lemma_fsum_scale(gp(kernel(i, k)), g, c, nn);
            lemma_kernel_sum(i, k);
            lemma_mul_cong(c, c, fsum(gp(kernel(i, k)), nn), 0);
        }
        let ck = p[k] * pow(a, k as nat);
        let gk = |j: int| ck * gp(kernel(k, k))(j);
        assert forall|j: int| 0 <= j < nn implies modq(#[trigger] col(f, k)(j)) == modq(gk(j)) by {
            lemma_term(p[k], k as nat, j as nat, k as nat);
        }
        lemma_fsum_mod(col(f, k), gk, nn);
        lemma_fsum_scale(gp(kernel(k, k)), gk, ck, nn);
        lemma_kernel_sum(k, k);
        lemma_mul_cong(ck, ck, fsum(gp(kernel(k, k)), nn), nn as int);
        lemma_fsum_single(cols(f, nn), k, nn);
        // peval(e, y, N) = p[k] PSI^k N modulo q; scale by N^-1 PSI_INV^k
        let v = peval(e, y, nn);
        assert(modq(v) == modq(ck * nn)) by {
            lemma_mod_twice(fsum(ev(e, y), nn), MODULUS as int);
        }
        let s0 = modq(N_INV * pow_mod(b, k as nat));
        lemma_pow_mod_is(b, k as nat);
        lemma_mod_twice(pow(b, k as nat), MODULUS as int);
        lemma_mul_cong(N_INV as int, N_INV as int, pow_mod(b, k as nat), pow(b, k as nat));
        lemma_mod_twice(N_INV * pow_mod(b, k as nat), MODULUS as int);
        lemma_mul_cong(s0, N_INV * pow(b, k as nat), v, ck * nn);
        let ub = pow(b, k as nat);
        let pa = pow(a, k as nat);
        assert((N_INV * ub) * (ck * nn) == (N_INV * nn) * ((pa * ub) * p[k])) by (nonlinear_arith)
            requires
                ck == p[k] * pa,
        ;
        lemma_inv_pow(k as nat);
        assert(modq(N_INV * nn) == 1);
        lemma_mul_cong(pa * ub, 1, p[k], p[k]);
        lemma_mul_cong(N_INV * nn, 1, (pa * ub) * p[k], 1 * p[k]);
        assert(to_coeff(e)[k] == modq(s0 * v));
        vstd::arithmetic::div_mod::lemma_small_mod(p[k] as nat, MODULUS as nat);
    }
    assert(to_coeff(e) =~= p);
}

/// The evaluation form of a difference is the pointwise difference.
pub proof fn lemma_to_eval_sub(c: Seq<int>, m: Seq<int>)
    requires
        c.len() == N,
        m.len() == N,
    ensures
        to_eval(ring_sub(c, m)) == eval_sub(to_eval(c), to_eval(m)),
{
    let nn = N as nat;
    let d = ring_sub(c, m);
    assert forall|j: int| 0 <= j < N implies #[trigger] to_eval(d)[j] == eval_sub(
        to_eval(c),
        to_eval(m),
    )[j] by {
        let w = pow_mod(PSI as int, (2 * j + 1) as nat);
        lemma_peval_is(d, w, nn);
        lemma_peval_is(c, w, nn);
        lemma_peval_is(m, w, nn);
        let neg = |k: int| -1 * ev(m, w)(k);
        let g = |k: int| ev(c, w)(k) + neg(k);
        assert forall|k: int| 0 <= k < nn implies modq(#[trigger] ev(d, w)(k)) == modq(g(k)) by {
            let pk = pow(w, k as nat);
            lemma_mod_twice(c[k] - m[k], MODULUS as int);
            lemma_mul_cong(modq(c[k] - m[k]), c[k] - m[k], pk, pk);
            assert((c[k] - m[k]) * pk == c[k] * pk + -1 * (m[k] * pk)) by (nonlinear_arith);
        }
        lemma_fsum_mod(ev(d, w), g, nn);
        lemma_fsum_add(ev(c, w), neg, g, nn);
        lemma_fsum_scale(ev(m, w), neg, -1, nn);
        let ec = fsum(ev(c, w), nn);
        let em = fsum(ev(m, w), nn);
        lemma_mod_twice(ec, MODULUS as int);
        lemma_mod_twice(em, MODULUS as int);
        lemma_mul_cong(-1, -1, modq(em), em);
        lemma_add_cong(modq(ec), ec, -1 * modq(em), -1 * em);
    }
    assert(to_eval(d) =~= eval_sub(to_eval(c), to_eval(m)));
}

} // verus!
