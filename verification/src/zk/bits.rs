//! Little-endian bit decompositions of field elements, as the circuit's
//! Num2Bits sees them.

use vstd::prelude::*;

use vstd::arithmetic::power2::pow2;

use crate::field::{limbs_value, p, w64, Fe};

verus! {

/// 2^n.
pub open spec fn two_pow(n: nat) -> nat
    decreases n,
{
    if n == 0 {
        1
    } else {
        2 * two_pow((n - 1) as nat)
    }
}

/// The integer a little-endian bit sequence denotes.
pub open spec fn bits_value(bits: Seq<bool>) -> nat
    decreases bits.len(),
{
    if bits.len() == 0 {
        0
    } else {
        (if bits[0] {
            1nat
        } else {
            0nat
        }) + 2 * bits_value(bits.drop_first())
    }
}

/// `bits` is the n-bit little-endian decomposition of v.
pub open spec fn is_bits_of(bits: Seq<bool>, n: nat, v: nat) -> bool {
    bits.len() == n && bits_value(bits) == v
}

/// The n-bit decomposition of v (unique when v < 2^n).
pub open spec fn spec_bits(v: nat, n: nat) -> Seq<bool> {
    choose|b: Seq<bool>| is_bits_of(b, n, v)
}

/// Appending a bit adds it at weight 2^len.
pub proof fn lemma_bits_push(s: Seq<bool>, b: bool)
    ensures
        bits_value(s.push(b)) == bits_value(s) + two_pow(s.len()) * (if b {
            1nat
        } else {
            0nat
        }),
    decreases s.len(),
{
    let bb: nat = if b {
        1nat
    } else {
        0nat
    };
    if s.len() == 0 {
        assert(s.push(b).drop_first() =~= Seq::<bool>::empty());
        assert(bits_value(Seq::<bool>::empty()) == 0);
        assert(bits_value(s) == 0);
        assert(two_pow(0) == 1);
        assert(bits_value(s.push(b)) == bb + 2 * bits_value(s.push(b).drop_first()));
    } else {
        assert(s.push(b).drop_first() =~= s.drop_first().push(b));
        lemma_bits_push(s.drop_first(), b);
        assert(s.push(b)[0] == s[0]);
        assert(bits_value(s.push(b)) == (if s[0] {
            1nat
        } else {
            0nat
        }) + 2 * bits_value(s.drop_first().push(b)));
        assert(two_pow(s.len()) == 2 * two_pow((s.len() - 1) as nat));
        assert(2 * (two_pow((s.len() - 1) as nat) * (if b {
            1nat
        } else {
            0nat
        })) == two_pow(s.len()) * (if b {
            1nat
        } else {
            0nat
        })) by (nonlinear_arith)
            requires
                two_pow(s.len()) == 2 * two_pow((s.len() - 1) as nat),
        ;
    }
}

/// Concatenation: the second part has weight 2^len(first).
pub proof fn lemma_bits_concat(a: Seq<bool>, b: Seq<bool>)
    ensures
        bits_value(a + b) == bits_value(a) + two_pow(a.len()) * bits_value(b),
    decreases a.len(),
{
    if a.len() == 0 {
        assert(a + b =~= b);
        assert(two_pow(0) == 1);
        assert(bits_value(a) == 0);
    } else {
        assert((a + b).drop_first() =~= a.drop_first() + b);
        lemma_bits_concat(a.drop_first(), b);
        assert((a + b)[0] == a[0]);
        assert(bits_value(a + b) == (if a[0] {
            1nat
        } else {
            0nat
        }) + 2 * bits_value(a.drop_first() + b));
        let t = two_pow((a.len() - 1) as nat);
        let vb = bits_value(b);
        assert(2 * (t * vb) == (2 * t) * vb) by (nonlinear_arith);
    }
}

/// n bits denote less than 2^n.
pub proof fn lemma_bits_bound(s: Seq<bool>)
    ensures
        bits_value(s) < two_pow(s.len()),
    decreases s.len(),
{
    if s.len() > 0 {
        lemma_bits_bound(s.drop_first());
    }
}

/// All-zero bits denote 0; a set bit makes the value positive.
pub proof fn lemma_bits_zero(s: Seq<bool>)
    ensures
        (forall|i: int| 0 <= i < s.len() ==> !s[i]) ==> bits_value(s) == 0,
        (exists|i: int| 0 <= i < s.len() && s[i]) ==> bits_value(s) >= 1,
    decreases s.len(),
{
    if s.len() > 0 {
        lemma_bits_zero(s.drop_first());
        if exists|i: int| 0 <= i < s.len() && s[i] {
            let i = choose|i: int| 0 <= i < s.len() && s[i];
            if i > 0 {
                assert(s.drop_first()[i - 1]);
            }
        }
        if forall|i: int| 0 <= i < s.len() ==> !s[i] {
            assert forall|i: int| 0 <= i < s.drop_first().len() implies !s.drop_first()[i] by {
                assert(!s[i + 1]);
            }
        }
    }
}

/// Bit sequences of one length with one value are equal.
pub proof fn lemma_bits_unique(a: Seq<bool>, b: Seq<bool>)
    requires
        a.len() == b.len(),
        bits_value(a) == bits_value(b),
    ensures
        a == b,
    decreases a.len(),
{
    if a.len() > 0 {
        let ra = bits_value(a.drop_first());
        let rb = bits_value(b.drop_first());
        assert(a[0] == b[0]) by {
            if a[0] != b[0] {
                assert((if a[0] { 1int } else { 0int }) + 2 * ra == (if b[0] { 1int } else { 0int }) + 2 * rb);
            }
        }
        lemma_bits_unique(a.drop_first(), b.drop_first());
        assert(a =~= seq![a[0]] + a.drop_first());
        assert(b =~= seq![b[0]] + b.drop_first());
    } else {
        assert(a =~= b);
    }
}

/// The decomposition of a value below 2^n is the unique one.
pub proof fn lemma_spec_bits(bits: Seq<bool>, n: nat, v: nat)
    requires
        is_bits_of(bits, n, v),
    ensures
        spec_bits(v, n) == bits,
{
    let c = spec_bits(v, n);
    assert(is_bits_of(c, n, v));
    lemma_bits_unique(c, bits);
}

/// The 64 bits of a u64.
fn u64_bits(x: u64) -> (r: Vec<bool>)
    ensures
        r@.len() == 64,
        bits_value(r@) == x,
{
    let mut bits: Vec<bool> = Vec::new();
    let mut cur: u64 = x;
    let mut j: usize = 0;
    assert(two_pow(0) == 1);
    assert(bits_value(bits@) == 0);
    while j < 64
        invariant
            j <= 64,
            bits@.len() == j,
            x as nat == bits_value(bits@) + two_pow(j as nat) * cur as nat,
        decreases 64 - j,
    {
        let b = cur % 2 == 1;
        proof {
            lemma_bits_push(bits@, b);
            let t = two_pow(j as nat);
            assert(cur as nat == (if b { 1nat } else { 0nat }) + 2 * ((cur / 2) as nat));
            assert(t * (cur as nat) == t * (if b { 1nat } else { 0nat }) + (2 * t) * ((cur / 2) as nat))
                by (nonlinear_arith)
                requires
                    cur as nat == (if b { 1nat } else { 0nat }) + 2 * ((cur / 2) as nat),
            ;
        }
        bits.push(b);
        cur = cur / 2;
        j += 1;
    }
    proof {
        lemma_two_pow_64();
        assert(cur == 0) by {
            lemma_bits_bound(bits@);
            if cur > 0 {
                assert(two_pow(64) * (cur as nat) >= two_pow(64)) by (nonlinear_arith)
                    requires
                        cur > 0,
                ;
            }
        }
    }
    bits
}

/// two_pow agrees with vstd's pow2.
pub proof fn lemma_two_pow_pow2(n: nat)
    ensures
        two_pow(n) == pow2(n),
    decreases n,
{
    if n == 0 {
        vstd::arithmetic::power2::lemma2_to64();
    } else {
        lemma_two_pow_pow2((n - 1) as nat);
        vstd::arithmetic::power2::lemma_pow2_unfold(n);
    }
}

/// 2^64, 2^128, 2^192, and 2^254 > p.
pub proof fn lemma_two_pow_64()
    ensures
        two_pow(64) == w64(),
        two_pow(128) == w64() * w64(),
        two_pow(192) == w64() * w64() * w64(),
        two_pow(254) > p(),
{
    vstd::arithmetic::power2::lemma2_to64();
    vstd::arithmetic::power2::lemma2_to64_rest();
    lemma_two_pow_pow2(64);
    lemma_two_pow_pow2(128);
    lemma_two_pow_pow2(192);
    lemma_two_pow_pow2(254);
    vstd::arithmetic::power2::lemma_pow2_adds(64, 64);
    vstd::arithmetic::power2::lemma_pow2_adds(128, 64);
    vstd::arithmetic::power2::lemma_pow2_adds(192, 62);
    assert(pow2(64) == 0x1_0000_0000_0000_0000nat);
    assert(pow2(62) == 0x4000_0000_0000_0000nat);
}

/// The 256-bit little-endian decomposition of a field element.
pub fn fe_bits256(f: &Fe) -> (r: Vec<bool>)
    ensures
        is_bits_of(r@, 256, f@),
{
    let limbs = f.to_limbs();
    let mut bits: Vec<bool> = Vec::new();
    let mut i: usize = 0;
    assert(bits_value(bits@) == 0);
    while i < 4
        invariant
            i <= 4,
            bits@.len() == 64 * i,
            bits_value(bits@) as int == if i == 0 {
                0int
            } else if i == 1 {
                limbs[0] as int
            } else if i == 2 {
                limbs[0] + limbs[1] * w64()
            } else if i == 3 {
                limbs[0] + limbs[1] * w64() + limbs[2] * (w64() * w64())
            } else {
                limbs[0] + limbs[1] * w64() + limbs[2] * (w64() * w64()) + limbs[3] * (w64() * w64() * w64())
            },
        decreases 4 - i,
    {
        let lb = u64_bits(limbs[i]);
        let ghost before = bits@;
        let mut j: usize = 0;
        while j < 64
            invariant
                j <= 64,
                lb@.len() == 64,
                bits@ == before + lb@.subrange(0, j as int),
            decreases 64 - j,
        {
            bits.push(lb[j]);
            j += 1;
            assert(lb@.subrange(0, j as int) =~= lb@.subrange(0, j - 1).push(lb@[j - 1]));
        }
        proof {
            assert(lb@.subrange(0, 64) =~= lb@);
            lemma_bits_concat(before, lb@);
            lemma_two_pow_64();
            assert(two_pow(0) == 1);
            assert(before.len() == 64 * i);
            let v = bits_value(before) as int;
            let li = limbs[i as int] as int;
            if i == 0 {
                assert(bits_value(bits@) as int == v + 1 * li);
                assert(bits_value(bits@) as int == limbs[0] as int);
            } else if i == 1 {
                assert(bits_value(bits@) as int == v + w64() * li);
                assert(v == limbs[0] as int);
                assert(bits_value(bits@) as int == limbs[0] + limbs[1] * w64());
            } else if i == 2 {
                assert(bits_value(bits@) as int == v + (w64() * w64()) * li);
                assert(bits_value(bits@) as int == limbs[0] + limbs[1] * w64() + limbs[2] * (w64()
                    * w64()));
            } else {
                assert(bits_value(bits@) as int == v + (w64() * w64() * w64()) * li);
                assert(bits_value(bits@) as int == limbs[0] + limbs[1] * w64() + limbs[2] * (w64()
                    * w64()) + limbs[3] * (w64() * w64() * w64()));
            }
        }
        i += 1;
    }
    proof {
        assert(limbs_value(limbs[0], limbs[1], limbs[2], limbs[3]) == limbs[0] + limbs[1] * w64()
            + limbs[2] * (w64() * w64()) + limbs[3] * (w64() * w64() * w64()));
    }
    bits
}

/// Little-endian bits of a field element, or `None` if it does not fit n
/// bits.
pub fn f_bits_le(f: &Fe, n: usize) -> (r: Option<Vec<bool>>)
    requires
        n <= 256,
    ensures
        r is Some <==> f@ < two_pow(n as nat),
        r matches Some(bits) ==> is_bits_of(bits@, n as nat, f@),
{
    let all = fe_bits256(f);
    let mut i: usize = n;
    while i < 256
        invariant
            n <= i <= 256,
            is_bits_of(all@, 256, f@),
            forall|k: int| n <= k < i ==> !all@[k],
        decreases 256 - i,
    {
        if all[i] {
            proof {
                let pre = all@.subrange(0, n as int);
                let suf = all@.subrange(n as int, 256);
                assert(all@ =~= pre + suf);
                lemma_bits_concat(pre, suf);
                assert(suf[i - n]);
                lemma_bits_zero(suf);
                assert(two_pow(n as nat) * bits_value(suf) >= two_pow(n as nat)) by (nonlinear_arith)
                    requires
                        bits_value(suf) >= 1,
                ;
            }
            return None;
        }
        i += 1;
    }
    let mut out: Vec<bool> = Vec::new();
    let mut k: usize = 0;
    while k < n
        invariant
            k <= n <= 256,
            is_bits_of(all@, 256, f@),
            forall|m: int| n <= m < 256 ==> !all@[m],
            out@ == all@.subrange(0, k as int),
        decreases n - k,
    {
        out.push(all[k]);
        k += 1;
    }
    proof {
        let pre = all@.subrange(0, n as int);
        let suf = all@.subrange(n as int, 256);
        assert(all@ =~= pre + suf);
        lemma_bits_concat(pre, suf);
        assert forall|m: int| 0 <= m < suf.len() implies !suf[m] by {
            assert(suf[m] == all@[n + m]);
        }
        lemma_bits_zero(suf);
        lemma_bits_bound(pre);
        assert(out@ =~= pre);
        assert(bits_value(suf) == 0);
        assert(bits_value(all@) == bits_value(pre) + two_pow(n as nat) * bits_value(suf));
        let tp = two_pow(n as nat);
        assert(tp * 0 == 0) by (nonlinear_arith);
        assert(bits_value(all@) == bits_value(pre));
        assert(f@ == bits_value(out@));
    }
    Some(out)
}

} // verus!
