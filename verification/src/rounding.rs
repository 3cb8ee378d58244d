//! Binary64 round-to-nearest of positive rationals, in exact integer
//! arithmetic.
//!
//! The fit of an image into the terminal computes aspect ratios and scaled
//! sizes the way IEEE-754 binary64 arithmetic does: each quotient or product
//! is rounded to the nearest value with a 53-bit significand (ties to even)
//! and sizes are then truncated to integers. This module states that
//! rounding over rationals `n / d` and computes it with `u128` arithmetic.
//! All quantities handled here are far inside the normal range, so the
//! exponent range of binary64 plays no part.
use vstd::prelude::*;
use vstd::arithmetic::power2::*;

verus! {

/// `a / b` rounded to the nearest integer, ties to the even one.
pub open spec fn round_half_even(a: nat, b: nat) -> nat {
    let q = a / b;
    let r = a % b;
    if 2 * r < b {
        q
    } else if 2 * r > b {
        q + 1
    } else if q % 2 == 0 {
        q
    } else {
        q + 1
    }
}

/// `2^t` scales `n / d` into the significand range `[2^52, 2^53)`.
pub open spec fn normalizes(n: nat, d: nat, t: nat) -> bool {
    &&& pow2(52) * d <= n * pow2(t)
    &&& n * pow2(t) < pow2(53) * d
}

/// The scale `t` of the binary64 binade holding `n / d`
/// (defined when `0 < n / d < 2^53`).
pub open spec fn scale_of(n: nat, d: nat) -> nat {
    choose|t: nat| normalizes(n, d, t)
}

/// The significand of the binary64 value nearest to `n / d`: that value is
/// `significand(n, d) / 2^scale_of(n, d)`.
pub open spec fn significand(n: nat, d: nat) -> nat {
    round_half_even(n * pow2(scale_of(n, d)), d)
}

/// The integer part of the binary64 value nearest to `n / d`
/// (what `(n as f64 / d as f64) as u64` gives, for exact `n` and `d`).
pub open spec fn rounded_int_part(n: nat, d: nat) -> nat {
    if n == 0 {
        0
    } else {
        significand(n, d) / pow2(scale_of(n, d))
    }
}

/// Whether the binary64 value nearest to `n1 / d1` exceeds the one nearest
/// to `n2 / d2`.
pub open spec fn rounded_gt(n1: nat, d1: nat, n2: nat, d2: nat) -> bool {
    significand(n1, d1) * pow2(scale_of(n2, d2)) > significand(n2, d2) * pow2(scale_of(n1, d1))
}

pub proof fn lemma_pow2_facts()
    ensures
        pow2(52) == 0x10_0000_0000_0000,
        pow2(53) == 0x20_0000_0000_0000,
{
    lemma2_to64();
    lemma2_to64_rest();
}

proof fn lemma_pow2_split(a: nat, b: nat)
    requires
        a <= b,
    ensures
        pow2(b) == pow2(a) * pow2((b - a) as nat),
        pow2((b - a) as nat) >= 1,
        a < b ==> pow2((b - a) as nat) >= 2,
{
    lemma_pow2_adds(a, (b - a) as nat);
    lemma_pow2_pos((b - a) as nat);
    if a < b {
        lemma_pow2_strictly_increases(0, (b - a) as nat);
        lemma2_to64();
    }
}

/// The binade scale is unique.
pub proof fn lemma_scale_unique(n: nat, d: nat, t1: nat, t2: nat)
    requires
        normalizes(n, d, t1),
        normalizes(n, d, t2),
    ensures
        t1 == t2,
{
    lemma_pow2_facts();
    if t1 < t2 {
        lemma_pow2_split(t1, t2);
        let k = pow2((t2 - t1) as nat);
        let a = n * pow2(t1);
        assert(n * pow2(t2) == a * k) by (nonlinear_arith)
            requires
                pow2(t2) == pow2(t1) * k,
                a == n * pow2(t1),
        ;
        assert(a * k >= 2 * a) by (nonlinear_arith)
            requires
                k >= 2,
                a >= 0,
        ;
    } else if t2 < t1 {
        lemma_pow2_split(t2, t1);
        let k = pow2((t1 - t2) as nat);
        let a = n * pow2(t2);
        assert(n * pow2(t1) == a * k) by (nonlinear_arith)
            requires
                pow2(t1) == pow2(t2) * k,
                a == n * pow2(t2),
        ;
        assert(a * k >= 2 * a) by (nonlinear_arith)
            requires
                k >= 2,
                a >= 0,
        ;
    }
}

/// A binade scale found for `n / d` is `scale_of(n, d)`.
pub proof fn lemma_scale_of(n: nat, d: nat, t: nat)
    requires
        normalizes(n, d, t),
    ensures
        scale_of(n, d) == t,
{
    let s = scale_of(n, d);
    assert(normalizes(n, d, s));
    lemma_scale_unique(n, d, s, t);
}

proof fn lemma_quotient_below(a: nat, d: nat, k: nat)
    requires
        d > 0,
        a < k * d,
    ensures
        a / d < k,
{
    vstd::arithmetic::div_mod::lemma_fundamental_div_mod(a as int, d as int);
    let q = a / d;
    let r = a % d;
    assert(q < k) by (nonlinear_arith)
        requires
            a == d * q + r,
            r >= 0,
            a < k * d,
            d > 0,
    ;
}

/// A value below one half has integer part zero.
pub proof fn lemma_small_int_part(n: nat, d: nat, t: nat)
    requires
        normalizes(n, d, t),
        n > 0,
        2 * n < d,
    ensures
        rounded_int_part(n, d) == 0,
{
    lemma_pow2_facts();
    lemma_scale_of(n, d, t);
    let a = n * pow2(t);
    let q = a / d;
    assert(a < pow2(53) * d);
    assert(q < pow2(53)) by {
        lemma_quotient_below(a as nat, d as nat, pow2(53));
    }
    assert(round_half_even(a, d) <= pow2(53));
    // 2^52 d <= n 2^t and 2n < d give 2^53 n < n 2^t, so 2^t > 2^53
    assert(pow2(53) * n < n * pow2(t)) by (nonlinear_arith)
        requires
            pow2(52) * d <= n * pow2(t),
            2 * n < d,
            n > 0,
            pow2(52) > 0,
            pow2(53) == 2 * pow2(52),
    ;
    assert(pow2(53) < pow2(t)) by (nonlinear_arith)
        requires
            pow2(53) * n < n * pow2(t),
            n > 0,
    ;
    let sig = round_half_even(a, d);
    assert(sig / pow2(t) == 0) by {
        vstd::arithmetic::div_mod::lemma_basic_div(sig as int, pow2(t) as int);
    }
}

/// The result of rounding `n / d` to binary64.
pub struct Rounded {
    /// significand, in `[2^52, 2^53]`
    pub sig: u128,
    /// `2^scale`
    pub scale: u128,
    /// integer part of the rounded value
    pub int_part: u128,
}

/// Rounds `n / d` to the nearest binary64 value.
pub fn round_div(n: u128, d: u128) -> (r: Rounded)
    requires
        1 <= n,
        1 <= d <= 0x800_0000_0000_0000_0000,
        n < pow2(53) * d,
    ensures
        r.sig == significand(n as nat, d as nat),
        r.scale == pow2(scale_of(n as nat, d as nat)),
        r.int_part == rounded_int_part(n as nat, d as nat),
        normalizes(n as nat, d as nat, scale_of(n as nat, d as nat)),
        pow2(52) <= r.sig <= pow2(53),
        r.scale <= n * r.scale < pow2(53) * d,
        pow2(52) * d <= n * r.scale,
{
    proof {
        lemma_pow2_facts();
    }
    let low: u128 = 0x10_0000_0000_0000u128 * d;
    let mut a: u128 = n;
    let mut p: u128 = 1;
    let ghost mut t: nat = 0;
    proof {
        lemma2_to64();
    }
    while a < low
        invariant
            low == pow2(52) * d,
            low <= 0x8000_0000_0000_0000_0000_0000_0000_0000,
            1 <= d <= 0x800_0000_0000_0000_0000,
            1 <= n,
            1 <= a,
            a == n * p,
            p == pow2(t),
            a < 2 * low,
            p <= a,
        decreases 2 * low - a,
    {
        proof {
            lemma_pow2_unfold(t + 1);
        }
        a = a * 2;
        p = p * 2;
        proof {
            t = t + 1;
        }
        assert(a == n * p) by (nonlinear_arith)
            requires
                a == 2 * (n * (p / 2)),
                p == 2 * (p / 2),
        ;
    }
    assert(normalizes(n as nat, d as nat, t));
    proof {
        lemma_scale_of(n as nat, d as nat, t);
    }
    let q = a / d;
    let rem = a % d;
    assert(q < pow2(53)) by {
        lemma_quotient_below(a as nat, d as nat, pow2(53));
    }
    let sig: u128 = if 2 * rem < d {
        q
    } else if 2 * rem > d {
        q + 1
    } else if q % 2 == 0 {
        q
    } else {
        q + 1
    };
    assert(q >= pow2(52)) by {
        vstd::arithmetic::div_mod::lemma_div_is_ordered((pow2(52) * d) as int, a as int, d as int);
        vstd::arithmetic::div_mod::lemma_div_multiples_vanish(pow2(52) as int, d as int);
    }
    assert(q < pow2(53)) by {
        lemma_quotient_below(a as nat, d as nat, pow2(53));
    }
    let int_part = sig / p;
    Rounded { sig, scale: p, int_part }
}

proof fn lemma_scale_exists_from(n: nat, d: nat, t: nat)
    requires
        n > 0,
        n * pow2(t) < pow2(53) * d,
    ensures
        exists|u: nat| normalizes(n, d, u),
    decreases pow2(53) * d - n * pow2(t),
{
    lemma_pow2_facts();
    if n * pow2(t) < pow2(52) * d {
        lemma_pow2_unfold(t + 1);
        assert(n * pow2(t + 1) == 2 * (n * pow2(t))) by (nonlinear_arith)
            requires
                pow2(t + 1) == 2 * pow2(t),
        ;
        lemma_pow2_pos(t);
        assert(n * pow2(t) >= 1) by (nonlinear_arith)
            requires
                n >= 1,
                pow2(t) >= 1,
        ;
        lemma_scale_exists_from(n, d, t + 1);
    } else {
        assert(normalizes(n, d, t));
    }
}

/// Rounding `n / d` when `2n < d` yields integer part 0.
pub proof fn lemma_tiny_int_part(n: nat, d: nat)
    requires
        n > 0,
        2 * n < d,
    ensures
        rounded_int_part(n, d) == 0,
{
    lemma_pow2_facts();
    lemma2_to64();
    assert(n * pow2(0) < pow2(53) * d) by (nonlinear_arith)
        requires
            pow2(0) == 1,
            n < d,
            pow2(53) >= 1,
    ;
    lemma_scale_exists_from(n, d, 0);
    let u = choose|u: nat| normalizes(n, d, u);
    lemma_small_int_part(n, d, u);
}

proof fn lemma_scale_is_pow2_quotient(t1: nat, t2: nat)
    requires
        pow2(t1) <= pow2(t2),
    ensures
        t1 <= t2,
        pow2(t2) == pow2(t1) * pow2((t2 - t1) as nat),
        pow2(t2) / pow2(t1) == pow2((t2 - t1) as nat),
{
    if t1 > t2 {
        lemma_pow2_strictly_increases(t2, t1);
    }
    lemma_pow2_adds(t1, (t2 - t1) as nat);
    lemma_pow2_pos(t1);
    vstd::arithmetic::div_mod::lemma_div_multiples_vanish(
        pow2((t2 - t1) as nat) as int,
        pow2(t1) as int,
    );
}

/// Compares two rounded values `s1 / p1 > s2 / p2`, with significands in
/// `[2^52, 2^53]` and `p1`, `p2` powers of two.
pub fn rounded_gt_exec(s1: u128, p1: u128, s2: u128, p2: u128, Ghost(t1): Ghost<nat>, Ghost(t2): Ghost<nat>) -> (r: bool)
    requires
        pow2(52) <= s1 <= pow2(53),
        pow2(52) <= s2 <= pow2(53),
        p1 == pow2(t1),
        p2 == pow2(t2),
    ensures
        r == (s1 * p2 > s2 * p1),
{
    proof {
        lemma_pow2_facts();
        lemma_pow2_pos(t1);
        lemma_pow2_pos(t2);
    }
    if p1 <= p2 {
        proof {
            lemma_scale_is_pow2_quotient(t1, t2);
        }
        let r = p2 / p1;
        assert(p2 == p1 * r);
        if r >= 4 {
            assert(s1 * p2 > s2 * p1) by (nonlinear_arith)
                requires
                    p2 == p1 * r,
                    r >= 4,
                    s1 >= 0x10_0000_0000_0000,
                    s2 <= 0x20_0000_0000_0000,
                    p1 >= 1,
            ;
            true
        } else {
            assert((s1 * p2 > s2 * p1) == (s1 * r > s2)) by (nonlinear_arith)
                requires
                    p2 == p1 * r,
                    p1 >= 1,
            ;
            assert(s1 * r <= 4 * 0x20_0000_0000_0000) by (nonlinear_arith)
                requires
                    r < 4,
                    s1 <= 0x20_0000_0000_0000,
            ;
            s1 * r > s2
        }
    } else {
        proof {
            lemma_scale_is_pow2_quotient(t2, t1);
        }
        let r = p1 / p2;
        assert(p1 == p2 * r);
        if r >= 4 {
            assert(!(s1 * p2 > s2 * p1)) by (nonlinear_arith)
                requires
                    p1 == p2 * r,
                    r >= 4,
                    s2 >= 0x10_0000_0000_0000,
                    s1 <= 0x20_0000_0000_0000,
                    p2 >= 1,
            ;
            false
        } else {
            assert((s1 * p2 > s2 * p1) == (s1 > s2 * r)) by (nonlinear_arith)
                requires
                    p1 == p2 * r,
                    p2 >= 1,
            ;
            assert(s2 * r <= 4 * 0x20_0000_0000_0000) by (nonlinear_arith)
                requires
                    r < 4,
                    s2 <= 0x20_0000_0000_0000,
            ;
            s1 > s2 * r
        }
    }
}



} // verus!
