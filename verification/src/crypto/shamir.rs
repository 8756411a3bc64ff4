//! Shamir secret sharing over the BN254 scalar field, used for the
//! authority nonces R_EA,i.

use vstd::prelude::*;
use vstd::arithmetic::div_mod::{
    lemma_add_mod_noop, lemma_fundamental_div_mod, lemma_mod_multiples_vanish, lemma_mul_mod_noop, lemma_small_mod,
};

use crate::errors::{msg, CrDrError, Result};
use crate::crypto::lagrange::{ev, invertible, lemma_padd, lemma_pmullin, lemma_pscale, lemma_unique, padd, pmullin, pscale};
use crate::field::{fe_inverse_spec, p, Fe};

verus! {

/// One share: the polynomial's value at x = index (never 0).
#[derive(Debug, Clone, Copy, PartialEq, Eq, Structural)]
pub struct Share {
    /// Evaluation point x = authority index + 1.
    pub index: u64,
    pub value: Fe,
}

/// Horner evaluation mod p of the polynomial with coefficients `coeffs`
/// (constant term first) at x.
pub open spec fn spec_poly_eval(coeffs: Seq<nat>, x: nat) -> nat
    decreases coeffs.len(),
{
    if coeffs.len() == 0 {
        0
    } else {
        (spec_poly_eval(coeffs.drop_first(), x) * x + coeffs[0]) % p()
    }
}

/// The shares of a polynomial at x = 1..=k.
pub open spec fn spec_shares_of(coeffs: Seq<nat>, shares: Seq<Share>, k: nat) -> bool {
    &&& shares.len() == k
    &&& forall|j: int|
        0 <= j < k ==> (#[trigger] shares[j]).index == j + 1 && shares[j].value@ == spec_poly_eval(
            coeffs,
            (j + 1) as nat,
        )
}

/// Split `secret` into k shares with reconstruction threshold t: the
/// values at x = 1..=k of a random polynomial of degree t-1 whose constant
/// term is the secret. Fails exactly when t is 0 or exceeds k.
pub fn share(secret: Fe, t: usize, k: usize, rng: &mut rand_chacha::ChaCha20Rng) -> (r: Result<
    Vec<Share>,
>)
    requires
        k < u64::MAX,
    ensures
        r is Ok <==> (1 <= t <= k),
        r matches Err(e) ==> e is Threshold,
        r matches Ok(shares) ==> exists|coeffs: Seq<nat>|
            coeffs.len() == t && coeffs[0] == secret@ && spec_shares_of(coeffs, shares@, k as nat),
        r matches Ok(shares) ==> spec_reconstruct(shares@) == Some(secret@),
{
    if t == 0 || t > k {
        return Err(CrDrError::Threshold(msg("invalid threshold")));
    }
    let mut coeffs: Vec<Fe> = vec![secret];
    let mut c: usize = 1;
    while c < t
        invariant
            1 <= c <= t,
            coeffs@.len() == c,
            coeffs@[0] == secret,
        decreases t - c,
    {
        coeffs.push(Fe::random(rng));
        c += 1;
    }
    let ghost cs = crate::crypto::hash::vals(coeffs@);
    let mut shares: Vec<Share> = Vec::new();
    let mut x: u64 = 1;
    while x <= k as u64
        invariant
            1 <= x <= k + 1,
            k < u64::MAX,
            coeffs@.len() == t,
            coeffs@[0] == secret,
            cs == crate::crypto::hash::vals(coeffs@),
            shares@.len() == x - 1,
            forall|j: int|
                0 <= j < x - 1 ==> (#[trigger] shares@[j]).index == j + 1 && shares@[j].value@
                    == spec_poly_eval(cs, (j + 1) as nat),
        decreases k + 1 - x,
    {
        let xf = Fe::from_u64(x);
        let mut v = Fe::zero();
        let mut i: usize = coeffs.len();
        while i > 0
            invariant
                i <= coeffs@.len(),
                xf@ == x as nat,
                cs == crate::crypto::hash::vals(coeffs@),
                v@ == spec_poly_eval(cs.subrange(i as int, cs.len() as int), x as nat),
            decreases i,
        {
            let c = coeffs[i - 1];
            c.bound();
            let vx = v.mul(&xf);
            let nv = vx.add(&c);
            proof {
                let a: int = (v@ * (x as nat)) as int;
                vstd::arithmetic::div_mod::lemma_add_mod_noop(a, c@ as int, p() as int);
                vstd::arithmetic::div_mod::lemma_small_mod(c@, p());
                vstd::arithmetic::div_mod::lemma_mod_twice(a, p() as int);
                assert(cs.subrange(i - 1, cs.len() as int).drop_first() =~= cs.subrange(
                    i as int,
                    cs.len() as int,
                ));
                assert(cs.subrange(i - 1, cs.len() as int)[0] == c@);
            }
            v = nv;
            i -= 1;
        }
        assert(cs.subrange(0, cs.len() as int) =~= cs);
        shares.push(Share { index: x, value: v });
        x += 1;
    }
    assert(spec_shares_of(cs, shares@, k as nat));
    assert(cs.len() == t && cs[0] == secret@);
    secret.bound();
    proof {
        lemma_shares_of_interpolate(cs, shares@, k as nat);
    }
    // The dealer reads its sharing back before handing it out.
    match reconstruct(shares.as_slice()) {
        Ok(v) => {
            proof {
                Fe::lemma_eq_iff_view_eq(v, secret);
            }
            if v != secret {
                return Err(CrDrError::Threshold(msg("sharing does not read back")));
            }
        },
        Err(e) => return Err(e),
    }
    Ok(shares)
}

/// The shares of a polynomial at x = 1..=k have distinct nonzero indices
/// and are its values there.
proof fn lemma_shares_of_interpolate(coeffs: Seq<nat>, shares: Seq<Share>, k: nat)
    requires
        spec_shares_of(coeffs, shares, k),
    ensures
        spec_indices_ok(shares),
        spec_on_poly(coeffs, shares),
        shares.len() == k,
{
    assert forall|i: int, j: int| 0 <= i < j < shares.len() implies (#[trigger] shares[i]).index != (
    #[trigger] shares[j]).index by {
        assert(shares[i].index == i + 1 && shares[j].index == j + 1);
    }
    assert forall|i: int| 0 <= i < shares.len() implies (#[trigger] shares[i]).value@ == spec_poly_eval(
        coeffs,
        shares[i].index as nat,
    ) by {
        assert(shares[i].index == i + 1);
    }
}

/// Whether the share indices are nonzero and pairwise distinct.
pub open spec fn spec_indices_ok(shares: Seq<Share>) -> bool {
    &&& forall|i: int| 0 <= i < shares.len() ==> (#[trigger] shares[i]).index != 0
    &&& forall|i: int, j: int|
        0 <= i < j < shares.len() ==> (#[trigger] shares[i]).index != (#[trigger] shares[j]).index
}

/// prod_{j < n, x_j != x_i} x_j mod p.
pub open spec fn spec_num(shares: Seq<Share>, i: int, n: nat) -> nat
    decreases n,
{
    if n == 0 {
        1
    } else if shares[n - 1].index == shares[i].index {
        spec_num(shares, i, (n - 1) as nat)
    } else {
        (spec_num(shares, i, (n - 1) as nat) * (shares[n - 1].index as nat)) % p()
    }
}

/// prod_{j < n, x_j != x_i} (x_j - x_i) mod p.
pub open spec fn spec_den(shares: Seq<Share>, i: int, n: nat) -> nat
    decreases n,
{
    if n == 0 {
        1
    } else if shares[n - 1].index == shares[i].index {
        spec_den(shares, i, (n - 1) as nat)
    } else {
        (spec_den(shares, i, (n - 1) as nat) * ((shares[n - 1].index + p() - shares[i].index) % (
        p() as int)) as nat) % p()
    }
}

/// The Lagrange coefficient of share i at x = 0.
pub open spec fn spec_lagrange(shares: Seq<Share>, i: int) -> nat {
    (spec_num(shares, i, shares.len()) * fe_inverse_spec(spec_den(shares, i, shares.len()))) % p()
}

/// sum_{i < n} v_i * L_i mod p.
pub open spec fn spec_interpolate(shares: Seq<Share>, n: nat) -> nat
    decreases n,
{
    if n == 0 {
        0
    } else {
        (spec_interpolate(shares, (n - 1) as nat) + (shares[n - 1].value@ * spec_lagrange(
            shares,
            n - 1,
        )) % p()) % p()
    }
}

// ---------------------------------------------------------------------------
// General interpolation: the integer Lagrange polynomial of the shares
// ---------------------------------------------------------------------------

/// prod_{j < m, x_j != x_i} (x_j - z), exactly.
pub open spec fn sprod(s: Seq<Share>, i: int, m: nat, z: int) -> int
    decreases m,
{
    if m == 0 {
        1
    } else if s[m - 1].index == s[i].index {
        sprod(s, i, (m - 1) as nat, z)
    } else {
        sprod(s, i, (m - 1) as nat, z) * (s[m - 1].index as int - z)
    }
}

/// The coefficients of prod_{j < m, x_j != x_i} (x_j - X).
pub open spec fn basis(s: Seq<Share>, i: int, m: nat) -> Seq<int>
    decreases m,
{
    if m == 0 {
        seq![1int]
    } else if s[m - 1].index == s[i].index {
        basis(s, i, (m - 1) as nat)
    } else {
        pmullin(basis(s, i, (m - 1) as nat), s[m - 1].index as int)
    }
}

proof fn lemma_basis(s: Seq<Share>, i: int, m: nat, z: int)
    requires
        m <= s.len(),
        0 <= i < s.len(),
    ensures
        ev(basis(s, i, m), z) == sprod(s, i, m, z),
        basis(s, i, m).len() <= m + 1,
        i < m ==> basis(s, i, m).len() <= m,
    decreases m,
{
    if m == 0 {
        assert(seq![1int].drop_first().len() == 0);
        assert(ev(seq![1int].drop_first(), z) == 0);
        assert(0 * z == 0);
    } else {
        lemma_basis(s, i, (m - 1) as nat, z);
        if s[m - 1].index != s[i].index {
            lemma_pmullin(basis(s, i, (m - 1) as nat), s[m - 1].index as int, z);
            assert((s[m - 1].index as int - z) * sprod(s, i, (m - 1) as nat, z) == sprod(s, i, (m - 1) as nat, z) * (
            s[m - 1].index as int - z)) by (nonlinear_arith);
        }
    }
}

/// A factor x_j - z with x_j != x_i divides the product.
proof fn lemma_sprod_factor(s: Seq<Share>, i: int, m: nat, j: int, z: int) -> (r: int)
    requires
        0 <= j < m <= s.len(),
        0 <= i < s.len(),
        s[j].index != s[i].index,
    ensures
        sprod(s, i, m, z) == (s[j].index as int - z) * r,
    decreases m,
{
    if j == m - 1 {
        let a = sprod(s, i, (m - 1) as nat, z);
        let f = s[j].index as int - z;
        assert(a * f == f * a) by (nonlinear_arith);
        a
    } else {
        let r0 = lemma_sprod_factor(s, i, (m - 1) as nat, j, z);
        if s[m - 1].index == s[i].index {
            r0
        } else {
            let f = s[j].index as int - z;
            let g = s[m - 1].index as int - z;
            assert((f * r0) * g == f * (r0 * g)) by (nonlinear_arith);
            r0 * g
        }
    }
}

/// The product vanishes at another share's index.
proof fn lemma_sprod_zero(s: Seq<Share>, i: int, m: nat, k: int)
    requires
        0 <= k < m <= s.len(),
        0 <= i < s.len(),
        s[k].index != s[i].index,
    ensures
        sprod(s, i, m, s[k].index as int) == 0,
{
    let r = lemma_sprod_factor(s, i, m, k, s[k].index as int);
    assert(0 * r == 0) by (nonlinear_arith);
}

/// The numerator and denominator mod p are the exact products mod p.
proof fn lemma_num_den(s: Seq<Share>, i: int, m: nat)
    requires
        m <= s.len(),
        0 <= i < s.len(),
    ensures
        spec_num(s, i, m) == sprod(s, i, m, 0) % (p() as int),
        spec_den(s, i, m) == sprod(s, i, m, s[i].index as int) % (p() as int),
    decreases m,
{
    let q = p() as int;
    if m == 0 {
        lemma_small_mod(1, p());
    } else {
        lemma_num_den(s, i, (m - 1) as nat);
        if s[m - 1].index != s[i].index {
            let a = sprod(s, i, (m - 1) as nat, 0);
            let xj = s[m - 1].index as int;
            vstd::arithmetic::div_mod::lemma_mul_mod_noop_left(a, xj, q);
            assert(a * (xj - 0) == a * xj);
            let b = sprod(s, i, (m - 1) as nat, s[i].index as int);
            let xi = s[i].index as int;
            vstd::arithmetic::div_mod::lemma_mul_mod_noop(b, xj + q - xi, q);
            lemma_small_mod(((xj + q - xi) % q) as nat, p());
            assert(b * (xj + q - xi) == q * b + b * (xj - xi)) by (nonlinear_arith);
            lemma_mod_multiples_vanish(b, b * (xj - xi), q);
        }
    }
}

/// The Lagrange weight of share i, as an integer: y_i times the inverse of
/// its denominator.
pub open spec fn weight(s: Seq<Share>, i: int) -> int {
    s[i].value@ as int * fe_inverse_spec(spec_den(s, i, s.len())) as int
}

/// The interpolating polynomial over the first m shares' terms.
pub open spec fn qpoly(s: Seq<Share>, m: nat) -> Seq<int>
    decreases m,
{
    if m == 0 {
        Seq::empty()
    } else {
        padd(qpoly(s, (m - 1) as nat), pscale(basis(s, m - 1, s.len()), weight(s, m - 1)))
    }
}

/// sum_{i < m} weight_i * prod_i(z).
pub open spec fn qsum(s: Seq<Share>, m: nat, z: int) -> int
    decreases m,
{
    if m == 0 {
        0
    } else {
        qsum(s, (m - 1) as nat, z) + weight(s, m - 1) * sprod(s, m - 1, s.len(), z)
    }
}

proof fn lemma_qpoly(s: Seq<Share>, m: nat, z: int)
    requires
        m <= s.len(),
    ensures
        ev(qpoly(s, m), z) == qsum(s, m, z),
        qpoly(s, m).len() <= s.len(),
    decreases m,
{
    if m > 0 {
        lemma_qpoly(s, (m - 1) as nat, z);
        lemma_basis(s, m - 1, s.len(), z);
        let b = basis(s, m - 1, s.len());
        lemma_pscale(b, weight(s, m - 1), z);
        lemma_padd(qpoly(s, (m - 1) as nat), pscale(b, weight(s, m - 1)), z);
    }
}

/// At share k's index only share k's term survives.
proof fn lemma_qsum_at(s: Seq<Share>, m: nat, k: int)
    requires
        m <= s.len(),
        0 <= k < s.len(),
        spec_indices_ok(s),
    ensures
        qsum(s, m, s[k].index as int) == if k < m {
            weight(s, k) * sprod(s, k, s.len(), s[k].index as int)
        } else {
            0
        },
    decreases m,
{
    if m > 0 {
        lemma_qsum_at(s, (m - 1) as nat, k);
        if m - 1 != k {
            assert(s[m - 1].index != s[k].index);
            lemma_sprod_zero(s, m - 1, s.len(), k);
            assert(weight(s, m - 1) * 0 == 0) by (nonlinear_arith);
        }
    }
}

/// The sum at 0 is the interpolation, mod p.
proof fn lemma_qsum_zero(s: Seq<Share>, m: nat)
    requires
        m <= s.len(),
    ensures
        qsum(s, m, 0) % (p() as int) == spec_interpolate(s, m),
    decreases m,
{
    let q = p() as int;
    if m == 0 {
        lemma_small_mod(0, p());
    } else {
        lemma_qsum_zero(s, (m - 1) as nat);
        let i = m - 1;
        lemma_num_den(s, i, s.len());
        let a = qsum(s, (m - 1) as nat, 0);
        let y = s[i].value@ as int;
        let inv = fe_inverse_spec(spec_den(s, i, s.len())) as int;
        let sp = sprod(s, i, s.len(), 0);
        let lg = spec_lagrange(s, i) as int;
        // lg == ((sp % q) * inv) % q
        vstd::arithmetic::div_mod::lemma_mul_mod_noop_left(sp, inv, q);
        assert(lg == (sp * inv) % q);
        // (y * lg) % q == (y * (sp * inv)) % q
        vstd::arithmetic::div_mod::lemma_mul_mod_noop_right(y, sp * inv, q);
        assert(weight(s, i) * sp == y * (sp * inv)) by (nonlinear_arith)
            requires
                weight(s, i) == y * inv,
        ;
        vstd::arithmetic::div_mod::lemma_add_mod_noop(a, weight(s, i) * sp, q);
        lemma_small_mod(((a % q + (y * lg) % q) % q) as nat, p());
        assert(spec_interpolate(s, m) == (spec_interpolate(s, (m - 1) as nat) + (s[i].value@ * spec_lagrange(s, i)) % p()) % p());
    }
}

/// The integer coefficients of a polynomial given mod p.
pub open spec fn cints(c: Seq<nat>) -> Seq<int> {
    Seq::new(c.len(), |k: int| c[k] as int)
}

proof fn lemma_cints(c: Seq<nat>, x: nat)
    ensures
        spec_poly_eval(c, x) == ev(cints(c), x as int) % (p() as int),
        cints(c).len() == c.len(),
    decreases c.len(),
{
    let q = p() as int;
    if c.len() == 0 {
        lemma_small_mod(0, p());
    } else {
        lemma_cints(c.drop_first(), x);
        assert(cints(c).drop_first() =~= cints(c.drop_first()));
        let e = ev(cints(c.drop_first()), x as int);
        vstd::arithmetic::div_mod::lemma_mul_mod_noop_left(e, x as int, q);
        vstd::arithmetic::div_mod::lemma_add_mod_noop(e * x, c[0] as int, q);
        vstd::arithmetic::div_mod::lemma_add_mod_noop((e % q) * x, c[0] as int, q);
        lemma_small_mod((c[0] as int % q) as nat, p());
        vstd::arithmetic::div_mod::lemma_mod_twice(e * x, q);
        vstd::arithmetic::div_mod::lemma_mod_twice((e % q) * x, q);
    }
}

/// Lagrange interpolation at 0: shares with distinct nonzero indices of a
/// polynomial with at most as many coefficients as shares, given the
/// inverses of all denominators, interpolate to its constant term.
proof fn lemma_interpolation(s: Seq<Share>, coeffs: Seq<nat>)
    requires
        s.len() >= 1,
        spec_indices_ok(s),
        1 <= coeffs.len() <= s.len(),
        coeffs[0] < p(),
        spec_on_poly(coeffs, s),
        forall|i: int|
            0 <= i < s.len() ==> (spec_den(s, i, s.len()) * fe_inverse_spec(#[trigger] spec_den(s, i, s.len())))
                % p() == 1,
    ensures
        spec_interpolate(s, s.len()) == coeffs[0],
{
    let q = p() as int;
    let n = s.len();
    let xs = Seq::new(n, |k: int| s[k].index as int);
    let c = cints(coeffs);
    let qp = qpoly(s, n);
    let r = padd(qp, pscale(c, -1));
    lemma_cints(coeffs, 0);
    assert(q > 1);
    assert forall|k: int| 0 <= k < n implies #[trigger] ev(r, xs[k]) % q == 0 by {
        let xk = s[k].index as int;
        lemma_qpoly(s, n, xk);
        lemma_qsum_at(s, n, k);
        lemma_pscale(c, -1, xk);
        lemma_padd(qp, pscale(c, -1), xk);
        lemma_cints(coeffs, s[k].index as nat);
        lemma_num_den(s, k, n);
        let y = s[k].value@ as int;
        let inv = fe_inverse_spec(spec_den(s, k, n)) as int;
        let sp = sprod(s, k, n, xk);
        assert(spec_den(s, k, n) == sp % q);
        // (y * inv * sp) % q == y
        vstd::arithmetic::div_mod::lemma_mul_mod_noop_right(y, sp * inv, q);
        vstd::arithmetic::div_mod::lemma_mul_mod_noop_left(sp, inv, q);
        assert(((sp % q) * inv) % q == 1);
        assert(y * 1 == y);
        assert(s[k].value@ == spec_poly_eval(coeffs, s[k].index as nat));
        assert(y < q);
        assert((y * inv) * sp == y * (sp * inv)) by (nonlinear_arith);
        lemma_small_mod(y as nat, p());
        assert((weight(s, k) * sp) % q == y);
        assert(ev(c, xk) % q == y);
        vstd::arithmetic::div_mod::lemma_sub_mod_noop(weight(s, k) * sp, ev(c, xk), q);
        assert(ev(r, xs[k]) == weight(s, k) * sp - ev(c, xk));
    }
    assert forall|i: int, j: int|
        0 <= i < n && 0 <= j < n && i != j implies invertible(#[trigger] xs[i] - #[trigger] xs[j], q) by {
        assert(s[i].index != s[j].index);
        let rr = lemma_sprod_factor(s, j, n, i, s[j].index as int);
        lemma_num_den(s, j, n);
        let inv = fe_inverse_spec(spec_den(s, j, n)) as int;
        let sp = sprod(s, j, n, s[j].index as int);
        vstd::arithmetic::div_mod::lemma_mul_mod_noop_left(sp, inv, q);
        assert(sp * inv == (xs[i] - xs[j]) * (rr * inv)) by (nonlinear_arith)
            requires
                sp == (xs[i] - xs[j]) * rr,
        ;
        assert(((xs[i] - xs[j]) * (rr * inv)) % q == 1);
    }
    lemma_qpoly(s, n, 0);
    lemma_pscale(c, -1, 0);
    lemma_padd(qp, pscale(c, -1), 0);
    lemma_unique(r, xs, q);
    lemma_qsum_zero(s, n);
    assert(c.drop_first().len() + 1 == c.len());
    assert(ev(c, 0) == ev(c.drop_first(), 0) * 0 + c[0]);
    assert(ev(c.drop_first(), 0) * 0 == 0) by (nonlinear_arith);
    vstd::arithmetic::div_mod::lemma_sub_mod_noop(qsum(s, n, 0), ev(c, 0), q);
    lemma_fundamental_div_mod(qsum(s, n, 0), q);
    lemma_small_mod(coeffs[0], p());
    // qsum % q - c0 ≡ 0 with both in [0, q)
    assert((qsum(s, n, 0) % q - coeffs[0] as int) % q == 0);
    if qsum(s, n, 0) % q != coeffs[0] as int {
        let d = qsum(s, n, 0) % q - coeffs[0] as int;
        assert(-q < d < q);
        lemma_small_mod(d as nat, p());
        if d < 0 {
            vstd::arithmetic::div_mod::lemma_mod_add_multiples_vanish(d, q);
            lemma_small_mod((d + q) as nat, p());
        }
    }
}

/// What reconstruction yields: the Lagrange interpolation at 0, or `None`
/// for no shares, a zero or repeated index, or a singular denominator.
pub open spec fn spec_reconstruct(shares: Seq<Share>) -> Option<nat> {
    if shares.len() == 0 || !spec_indices_ok(shares) {
        None
    } else if exists|i: int| 0 <= i < shares.len() && #[trigger] spec_den(shares, i, shares.len())
        == 0 {
        None
    } else {
        Some(spec_interpolate(shares, shares.len()))
    }
}

/// Every share's value is the polynomial's value at the share's index.
pub open spec fn spec_on_poly(coeffs: Seq<nat>, shares: Seq<Share>) -> bool {
    forall|i: int|
        0 <= i < shares.len() ==> (#[trigger] shares[i]).value@ == spec_poly_eval(coeffs, shares[i].index as nat)
}

/// Two distinct indices below 2^64 differ by a nonzero value mod p.
proof fn lemma_diff_nonzero(a: u64, b: u64)
    requires
        a != b,
    ensures
        (a + p() - b) % (p() as int) != 0,
{
    let m = p() as int;
    assert(p() > 0x1_0000_0000_0000_0000);
    if a > b {
        vstd::arithmetic::div_mod::lemma_mod_add_multiples_vanish(a - b, m);
        lemma_small_mod((a - b) as nat, p());
    } else {
        lemma_small_mod((a + m - b) as nat, p());
    }
}

/// A product of invertibles mod m is invertible, by the product of inverses.
proof fn lemma_inv_mul(a: int, b: int, ta: int, tb: int, m: int)
    requires
        m > 1,
        (a * ta) % m == 1,
        (b * tb) % m == 1,
    ensures
        (((a * b) % m) * (ta * tb)) % m == 1,
{
    vstd::arithmetic::div_mod::lemma_mul_mod_noop_left(a * b, ta * tb, m);
    assert((a * b) * (ta * tb) == (a * ta) * (b * tb)) by (nonlinear_arith);
    lemma_mul_mod_noop(a * ta, b * tb, m);
    lemma_small_mod(1, m as nat);
}

/// Lagrange-interpolate the provided shares at x = 0. Shares with distinct
/// nonzero indices always reconstruct, and any t or more distinct shares of
/// a polynomial with t coefficients (degree below t) give back its constant
/// term, the secret; fewer shares in general do not.
pub fn reconstruct(shares: &[Share]) -> (r: Result<Fe>)
    ensures
        match r {
            Ok(v) => spec_reconstruct(shares@) == Some(v@),
            Err(_) => spec_reconstruct(shares@) is None,
        },
        r matches Err(e) ==> e is Threshold,
        1 <= shares@.len() && spec_indices_ok(shares@) ==> r is Ok,
        forall|coeffs: Seq<nat>|
            #[trigger] spec_on_poly(coeffs, shares@) && 1 <= coeffs.len() <= shares@.len() && coeffs[0] < p()
                && spec_indices_ok(shares@) ==> (r matches Ok(v) && v@ == coeffs[0]),
{
    if shares.len() == 0 {
        return Err(CrDrError::Threshold(msg("no shares")));
    }
    let mut a: usize = 0;
    while a < shares.len()
        invariant
            a <= shares@.len(),
            forall|i: int| 0 <= i < a ==> (#[trigger] shares@[i]).index != 0,
            forall|i: int, j: int|
                0 <= i < j < a ==> (#[trigger] shares@[i]).index != (#[trigger] shares@[j]).index,
        decreases shares@.len() - a,
    {
        if shares[a].index == 0 {
            return Err(CrDrError::Threshold(msg("duplicate or zero share index")));
        }
        let mut b: usize = 0;
        while b < a
            invariant
                b <= a < shares@.len(),
                forall|i: int| 0 <= i < b ==> (#[trigger] shares@[i]).index != shares@[a as int].index,
            decreases a - b,
        {
            if shares[b].index == shares[a].index {
                return Err(CrDrError::Threshold(msg("duplicate or zero share index")));
            }
            b += 1;
        }
        a += 1;
    }
    let mut acc = Fe::zero();
    let mut i: usize = 0;
    while i < shares.len()
        invariant
            spec_indices_ok(shares@),
            shares@.len() > 0,
            i <= shares@.len(),
            acc@ == spec_interpolate(shares@, i as nat),
            forall|m: int| 0 <= m < i ==> #[trigger] spec_den(shares@, m, shares@.len()) != 0,
            forall|m: int|
                0 <= m < i ==> (spec_den(shares@, m, shares@.len()) * fe_inverse_spec(
                    #[trigger] spec_den(shares@, m, shares@.len()),
                )) % p() == 1 && fe_inverse_spec(spec_den(shares@, m, shares@.len())) < p(),
        decreases shares@.len() - i,
    {
        let xi = Fe::from_u64(shares[i].index);
        let mut num = Fe::one();
        let mut den = Fe::one();
        let ghost mut tden: int = 1;
        proof {
            lemma_small_mod(1, p());
        }
        let mut j: usize = 0;
        while j < shares.len()
            invariant
                i < shares@.len(),
                j <= shares@.len(),
                xi@ == shares@[i as int].index,
                num@ == spec_num(shares@, i as int, j as nat),
                den@ == spec_den(shares@, i as int, j as nat),
                (den@ * tden) % (p() as int) == 1,
            decreases shares@.len() - j,
        {
            if shares[j].index != shares[i].index {
                let xj = Fe::from_u64(shares[j].index);
                let d = xj.sub(&xi);
                proof {
                    lemma_diff_nonzero(shares@[j as int].index, shares@[i as int].index);
                }
                let dinv = match d.inverse() {
                    Some(t) => t,
                    None => {
                        proof {
                            assert(false);
                        }
                        return Err(CrDrError::Threshold(msg("singular")));
                    },
                };
                proof {
                    lemma_inv_mul(den@ as int, d@ as int, tden, dinv@ as int, p() as int);
                    tden = tden * dinv@;
                }
                num = num.mul(&xj);
                den = den.mul(&d);
            }
            j += 1;
        }
        let inv = match den.inverse() {
            Some(v) => v,
            None => {
                proof {
                    assert(0 * tden == 0) by (nonlinear_arith);
                    lemma_small_mod(0, p());
                    assert(false);
                }
                return Err(CrDrError::Threshold(msg("singular")));
            },
        };
        inv.bound();
        let li = num.mul(&inv);
        acc = acc.add(&shares[i].value.mul(&li));
        i += 1;
    }
    proof {
        assert forall|coeffs: Seq<nat>|
            #[trigger] spec_on_poly(coeffs, shares@) && 1 <= coeffs.len() <= shares@.len() && coeffs[0] < p()
                && spec_indices_ok(shares@) implies acc@ == coeffs[0] by {
            lemma_interpolation(shares@, coeffs);
        }
    }
    Ok(acc)
}

} // verus!
