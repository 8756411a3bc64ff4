//! Integer polynomials (constant term first) and the facts Lagrange
//! interpolation rests on: synthetic division, and that a polynomial with
//! fewer coefficients than points, vanishing mod m at points whose
//! differences are invertible mod m, vanishes mod m at 0.

use vstd::prelude::*;
use vstd::arithmetic::div_mod::{
    lemma_fundamental_div_mod, lemma_mod_multiples_vanish, lemma_mul_mod_noop, lemma_small_mod,
};

verus! {

/// The exact Horner value of an integer polynomial at x.
pub open spec fn ev(c: Seq<int>, x: int) -> int
    decreases c.len(),
{
    if c.len() == 0 {
        0
    } else {
        ev(c.drop_first(), x) * x + c[0]
    }
}

/// The quotient of c by (X - a) (synthetic division).
pub open spec fn quot(c: Seq<int>, a: int) -> Seq<int>
    decreases c.len(),
{
    if c.len() <= 1 {
        Seq::empty()
    } else {
        seq![ev(c.drop_first(), a)] + quot(c.drop_first(), a)
    }
}

/// c(x) = (x - a) q(x) + c(a), q one coefficient shorter.
pub proof fn lemma_quot(c: Seq<int>, a: int, x: int)
    ensures
        ev(c, x) == (x - a) * ev(quot(c, a), x) + ev(c, a),
        quot(c, a).len() == if c.len() == 0 { 0 } else { c.len() - 1 },
    decreases c.len(),
{
    if c.len() == 0 {
    } else if c.len() == 1 {
        assert(c.drop_first().len() == 0);
        assert(ev(c.drop_first(), x) == 0);
        assert(ev(c.drop_first(), a) == 0);
        assert(0 * x == 0 && 0 * a == 0);
        assert(ev(c, x) == c[0]);
        assert(ev(c, a) == c[0]);
        assert(ev(quot(c, a), x) == 0);
    } else {
        let t = c.drop_first();
        lemma_quot(t, a, x);
        let q = quot(c, a);
        assert(q.drop_first() =~= quot(t, a));
        assert(q[0] == ev(t, a));
        let et = ev(t, x);
        let qt = ev(quot(t, a), x);
        let eta = ev(t, a);
        assert(ev(q, x) == qt * x + eta);
        assert(ev(c, x) == et * x + c[0]);
        assert(ev(c, a) == eta * a + c[0]);
        assert((x - a) * (qt * x + eta) + (eta * a + c[0]) == et * x + c[0]) by (nonlinear_arith)
            requires
                et == (x - a) * qt + eta,
        ;
    }
}

/// Whether a has an inverse mod m.
pub open spec fn invertible(a: int, m: int) -> bool {
    exists|t: int| #[trigger] ((a * t) % m) == 1
}

/// If d e + b and b vanish mod m and d is invertible mod m, e vanishes mod m.
proof fn lemma_cancel(d: int, e: int, a: int, b: int, m: int)
    requires
        m > 1,
        a == d * e + b,
        a % m == 0,
        b % m == 0,
        invertible(d, m),
    ensures
        e % m == 0,
{
    let t = choose|t: int| #[trigger] ((d * t) % m) == 1;
    lemma_fundamental_div_mod(a, m);
    lemma_fundamental_div_mod(b, m);
    let k = a / m - b / m;
    assert(d * e == m * k) by (nonlinear_arith)
        requires
            a == d * e + b,
            a == m * (a / m) + 0,
            b == m * (b / m) + 0,
            k == a / m - b / m,
    ;
    assert(e * (d * t) == m * (t * k) + 0) by (nonlinear_arith)
        requires
            d * e == m * k,
    ;
    lemma_mod_multiples_vanish(t * k, 0, m);
    lemma_mul_mod_noop(e, d * t, m);
    lemma_small_mod(0, m as nat);
    lemma_small_mod(1, m as nat);
    assert((e % m) * 1 == e % m);
    lemma_small_mod((e % m) as nat, m as nat);
}

/// A polynomial with at most as many coefficients as points, vanishing mod
/// m at every point, where distinct points differ by invertibles mod m,
/// vanishes mod m at 0.
pub proof fn lemma_unique(c: Seq<int>, xs: Seq<int>, m: int)
    requires
        m > 1,
        c.len() <= xs.len(),
        forall|i: int| 0 <= i < xs.len() ==> #[trigger] ev(c, xs[i]) % m == 0,
        forall|i: int, j: int|
            0 <= i < xs.len() && 0 <= j < xs.len() && i != j ==> invertible(#[trigger] xs[i] - #[trigger] xs[j], m),
    ensures
        ev(c, 0) % m == 0,
    decreases xs.len(),
{
    if c.len() == 0 {
        assert(ev(c, 0) == 0);
    } else {
        let n = xs.len();
        let a = xs[n - 1];
        let q = quot(c, a);
        let ys = xs.drop_last();
        assert(ev(c, xs[n - 1]) % m == 0);
        assert forall|i: int| 0 <= i < ys.len() implies #[trigger] ev(q, ys[i]) % m == 0 by {
            lemma_quot(c, a, ys[i]);
            assert(ys[i] == xs[i]);
            assert(ev(c, xs[i]) % m == 0);
            assert(invertible(xs[i] - xs[n - 1], m));
            lemma_cancel(ys[i] - a, ev(q, ys[i]), ev(c, ys[i]), ev(c, a), m);
        }
        assert forall|i: int, j: int|
            0 <= i < ys.len() && 0 <= j < ys.len() && i != j implies invertible(#[trigger] ys[i] - #[trigger] ys[j], m) by {
            assert(ys[i] == xs[i] && ys[j] == xs[j]);
            assert(invertible(xs[i] - xs[j], m));
        }
        lemma_quot(c, a, 0);
        lemma_unique(q, ys, m);
        let e = ev(q, 0);
        lemma_fundamental_div_mod(e, m);
        lemma_fundamental_div_mod(ev(c, a), m);
        let k = (0 - a) * (e / m) + ev(c, a) / m;
        assert(ev(c, 0) == m * k + 0) by (nonlinear_arith)
            requires
                ev(c, 0) == (0 - a) * e + ev(c, a),
                e == m * (e / m) + 0,
                ev(c, a) == m * (ev(c, a) / m) + 0,
                k == (0 - a) * (e / m) + ev(c, a) / m,
        ;
        lemma_mod_multiples_vanish(k, 0, m);
        lemma_small_mod(0, m as nat);
    }
}

/// Coefficientwise sum.
pub open spec fn padd(a: Seq<int>, b: Seq<int>) -> Seq<int>
    decreases a.len() + b.len(),
{
    if a.len() == 0 {
        b
    } else if b.len() == 0 {
        a
    } else {
        seq![a[0] + b[0]] + padd(a.drop_first(), b.drop_first())
    }
}

pub proof fn lemma_padd(a: Seq<int>, b: Seq<int>, x: int)
    ensures
        ev(padd(a, b), x) == ev(a, x) + ev(b, x),
        padd(a, b).len() == if a.len() >= b.len() { a.len() } else { b.len() },
    decreases a.len() + b.len(),
{
    if a.len() == 0 {
        assert(ev(a, x) == 0);
    } else if b.len() == 0 {
        assert(ev(b, x) == 0);
    } else {
        lemma_padd(a.drop_first(), b.drop_first(), x);
        let r = padd(a, b);
        assert(r.drop_first() =~= padd(a.drop_first(), b.drop_first()));
        let ea = ev(a.drop_first(), x);
        let eb = ev(b.drop_first(), x);
        assert((ea + eb) * x == ea * x + eb * x) by (nonlinear_arith);
    }
}

/// Every coefficient times s.
pub open spec fn pscale(c: Seq<int>, s: int) -> Seq<int> {
    Seq::new(c.len(), |k: int| s * c[k])
}

pub proof fn lemma_pscale(c: Seq<int>, s: int, x: int)
    ensures
        ev(pscale(c, s), x) == s * ev(c, x),
        pscale(c, s).len() == c.len(),
    decreases c.len(),
{
    if c.len() == 0 {
        assert(ev(c, x) == 0);
        assert(s * 0 == 0) by (nonlinear_arith);
    } else {
        lemma_pscale(c.drop_first(), s, x);
        assert(pscale(c, s).drop_first() =~= pscale(c.drop_first(), s));
        let e = ev(c.drop_first(), x);
        assert((s * e) * x + s * c[0] == s * (e * x + c[0])) by (nonlinear_arith);
    }
}

/// c times (b - X).
pub open spec fn pmullin(c: Seq<int>, b: int) -> Seq<int> {
    padd(pscale(c, b), seq![0int] + pscale(c, -1))
}

pub proof fn lemma_pmullin(c: Seq<int>, b: int, x: int)
    ensures
        ev(pmullin(c, b), x) == (b - x) * ev(c, x),
        pmullin(c, b).len() == c.len() + 1,
{
    lemma_pscale(c, b, x);
    lemma_pscale(c, -1, x);
    let sh = seq![0int] + pscale(c, -1);
    assert(sh.drop_first() =~= pscale(c, -1));
    assert(ev(sh, x) == ev(pscale(c, -1), x) * x + 0);
    lemma_padd(pscale(c, b), sh, x);
    let e = ev(c, x);
    assert(b * e + (-1 * e) * x + 0 == (b - x) * e) by (nonlinear_arith);
}

} // verus!
