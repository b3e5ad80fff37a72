//! Scaling a picture down to 1920 by 1080. The ratio and the sides are those of double-precision
//! arithmetic: each division and each product is rounded to 53 significant bits, halves to even.
use vstd::arithmetic::power2::{lemma2_to64, lemma2_to64_rest, lemma_pow2_pos, lemma_pow2_unfold, pow2};
use vstd::prelude::*;

verus! {

/// The integer nearest to `n / d`, the even one of two that are equally near.
pub open spec fn nearest(n: int, d: int) -> int {
    let q = n / d;
    let r = n % d;
    if 2 * r > d || (2 * r == d && q % 2 == 1) {
        q + 1
    } else {
        q
    }
}

/// Whether `a / w` lies in the binade whose numbers of 53 significant bits are multiples of
/// one `2^s`th.
pub open spec fn has_bits(a: int, w: int, s: nat) -> bool {
    pow2(52) * w <= a * pow2(s) && a * pow2(s) < pow2(53) * w
}

/// Whether `2^t` is the distance of the numbers of 53 significant bits around `p`, or the integer
/// `p` has no more bits and `t` is 0.
pub open spec fn has_spacing(p: int, t: nat) -> bool {
    &&& p < pow2(53) * pow2(t)
    &&& t > 0 ==> pow2(53) * pow2((t - 1) as nat) <= p
}

/// The product of `x` and the rounded ratio `a / w`, rounded, in units of one `2^s`th.
pub open spec fn rounded_product(x: int, a: int, w: int, s: nat, t: nat) -> int {
    nearest(x * nearest(a * pow2(s), w), pow2(t) as int) * pow2(t)
}

/// Whether `r` is the whole part of the rounded product of `x` and the rounded ratio `a / w`, where
/// `s` and `t` are the exponents of the two roundings.
pub open spec fn is_scaled_at(x: int, a: int, w: int, r: int, s: nat, t: nat) -> bool {
    &&& has_bits(a, w, s)
    &&& has_spacing(x * nearest(a * pow2(s), w), t)
    &&& r == rounded_product(x, a, w, s, t) / (pow2(s) as int)
}

/// Whether `r` is the whole part of the rounded product of `x` and the rounded ratio `a / w`.
pub open spec fn is_scaled(x: int, a: int, w: int, r: int) -> bool {
    exists|s: nat, t: nat| #[trigger] is_scaled_at(x, a, w, r, s, t)
}

pub proof fn lemma_nearest(n: int, d: int)
    requires
        n >= 0,
        d > 0,
    ensures
        2 * (nearest(n, d) * d) <= 2 * n + d,
        2 * n <= 2 * (nearest(n, d) * d) + d,
        n / d <= nearest(n, d) <= n / d + 1,
        nearest(n, d) >= 0,
{
    let q = n / d;
    let r = n % d;
    assert(n == q * d + r && 0 <= r < d && q >= 0) by (nonlinear_arith)
        requires
            n >= 0,
            d > 0,
            q == n / d,
            r == n % d,
    ;
    assert((q + 1) * d == q * d + d) by (nonlinear_arith);
}

proof fn lemma_pow2_grows(s: nat, t: nat)
    requires
        s < t,
    ensures
        2 * pow2(s) <= pow2(t),
        pow2(s) > 0,
    decreases t - s,
{
    lemma_pow2_pos(s);
    lemma_pow2_unfold(t);
    if s + 1 < t {
        lemma_pow2_grows(s, (t - 1) as nat);
    }
}

/// A result that no side of the picture exceeds: where `x` times `a / w` is at most `limit`, so is
/// what `x` is scaled to.
proof fn lemma_scaled_at_most(x: int, a: int, w: int, r: int, s: nat, t: nat, limit: int)
    requires
        is_scaled_at(x, a, w, r, s, t),
        0 <= x < 0x1_0000_0000,
        0 < a < w < 0x1_0000_0000,
        0 <= limit < 2048,
        x * a <= limit * w,
    ensures
        0 <= r <= limit,
{
    lemma2_to64();
    lemma2_to64_rest();
    lemma_pow2_pos(s);
    lemma_pow2_pos(t);
    let ps = pow2(s) as int;
    let pt = pow2(t) as int;
    let m = nearest(a * ps, w);
    let p = x * m;
    let k = nearest(p, pt);
    assert(a * ps >= 0) by (nonlinear_arith)
        requires
            a > 0,
            ps > 0,
    ;
    lemma_nearest(a * ps, w);
    assert(p >= 0) by (nonlinear_arith)
        requires
            p == x * m,
            x >= 0,
            m >= 0,
    ;
    lemma_nearest(p, pt);
    // The ratio is finer than one unit in 2^52.
    assert(ps > 0x10000000000000) by (nonlinear_arith)
        requires
            0x10000000000000 * w <= a * ps,
            0 < a < w,
            ps > 0,
    ;
    // 2 p w <= 2 x a 2^s + x w <= 2 limit w 2^s + x w.
    assert(2 * p <= 2 * (limit * ps) + x) by {
        assert(2 * (p * w) <= 2 * ((x * a) * ps) + x * w) by (nonlinear_arith)
            requires
                p == x * m,
                x >= 0,
                2 * (m * w) <= 2 * (a * ps) + w,
        ;
        assert((x * a) * ps <= (limit * w) * ps) by (nonlinear_arith)
            requires
                x * a <= limit * w,
                ps > 0,
        ;
        assert((limit * w) * ps == (limit * ps) * w) by (nonlinear_arith);
        let lp = limit * ps;
        assert(2 * p <= 2 * lp + x) by (nonlinear_arith)
            requires
                2 * (p * w) <= 2 * (lp * w) + x * w,
                w > 0,
        ;
    }
    assert(limit * ps <= 2047 * ps) by (nonlinear_arith)
        requires
            limit <= 2047,
            ps > 0,
    ;
    // The spacing of the product is finer than the units of the ratio.
    if t > 0 {
        lemma_pow2_unfold(t);
        let half = pow2((t - 1) as nat) as int;
        assert(pt == 2 * half);
        assert(0x20000000000000 * half <= p);
    }
    assert(x + pt < 2 * ps);
    assert((limit + 1) * ps == limit * ps + ps) by (nonlinear_arith);
    assert(k * pt < (limit + 1) * ps);
    assert(k * pt >= 0) by (nonlinear_arith)
        requires
            k >= 0,
            pt > 0,
    ;
    let v = k * pt;
    let lim = limit + 1;
    assert(0 <= v / ps && v / ps < lim) by (nonlinear_arith)
        requires
            0 <= v < lim * ps,
            ps > 0,
    ;
}

/// What a side is scaled to is determined by the side and the ratio.
pub proof fn law_scaling_is_determined(x: int, a: int, w: int, r1: int, r2: int)
    requires
        is_scaled(x, a, w, r1),
        is_scaled(x, a, w, r2),
        a > 0,
        w > 0,
    ensures
        r1 == r2,
{
    lemma2_to64_rest();
    let (s1, t1) = choose|s: nat, t: nat| #[trigger] is_scaled_at(x, a, w, r1, s, t);
    let (s2, t2) = choose|s: nat, t: nat| #[trigger] is_scaled_at(x, a, w, r2, s, t);
    lemma_same_bits(a, w, s1, s2);
    lemma_same_bits(a, w, s2, s1);
    let p = x * nearest(a * pow2(s1), w);
    lemma_same_spacing(p, t1, t2);
    lemma_same_spacing(p, t2, t1);
}

proof fn lemma_same_bits(a: int, w: int, s1: nat, s2: nat)
    requires
        has_bits(a, w, s1),
        has_bits(a, w, s2),
        a > 0,
    ensures
        s1 >= s2,
{
    if s1 < s2 {
        lemma2_to64_rest();
        lemma_pow2_grows(s1, s2);
        let p1 = pow2(s1) as int;
        let p2 = pow2(s2) as int;
        assert(2 * (a * p1) <= a * p2) by (nonlinear_arith)
            requires
                a > 0,
                2 * p1 <= p2,
        ;
    }
}

proof fn lemma_same_spacing(p: int, t1: nat, t2: nat)
    requires
        has_spacing(p, t1),
        has_spacing(p, t2),
    ensures
        t1 >= t2,
{
    if t1 < t2 {
        lemma2_to64_rest();
        if t1 < t2 - 1 {
            lemma_pow2_grows(t1, (t2 - 1) as nat);
        }
    }
}

fn round_nearest(n: u128, d: u128) -> (r: u128)
    requires
        0 < d < 0x1_0000_0000_0000_0000_0000_0000,
        n < 0x1_0000_0000_0000_0000_0000_0000,
    ensures
        r == nearest(n as int, d as int),
{
    let q = n / d;
    let rest = n % d;
    proof {
        lemma_nearest(n as int, d as int);
        assert(rest < d && q <= n) by (nonlinear_arith)
            requires
                d > 0,
                rest == n % d,
                q == n / d,
        ;
    }
    if 2 * rest > d || (2 * rest == d && q % 2 == 1) {
        q + 1
    } else {
        q
    }
}

/// Scales one side by the ratio `a / w`.
fn scale_side(x: u32, a: u32, w: u32, Ghost(limit): Ghost<int>) -> (r: u32)
    requires
        0 < a < w,
        0 <= limit < 2048,
        x * a <= limit * w,
    ensures
        is_scaled(x as int, a as int, w as int, r as int),
        r <= limit,
{
    proof {
        lemma2_to64();
        lemma2_to64_rest();
        assert(a * pow2(0) == a) by (nonlinear_arith)
            requires
                pow2(0) == 1,
        ;
    }
    let floor: u128 = 0x10000000000000 * (w as u128);
    let mut n: u128 = a as u128;
    let mut units: u128 = 1;
    let ghost mut s: nat = 0;
    while n < floor
        invariant
            0 < a < w,
            floor == 0x10000000000000 * w,
            n == a * pow2(s),
            units == pow2(s),
            units <= n,
            0 < n < 0x20000000000000 * w,
        decreases 0x20000000000000 * w - n,
    {
        proof {
            lemma_pow2_unfold(s + 1);
            let ps = pow2(s) as int;
            assert(a * (2 * ps) == 2 * (a * ps)) by (nonlinear_arith);
        }
        n = n * 2;
        units = units * 2;
        proof {
            s = s + 1;
        }
    }
    let m = round_nearest(n, w as u128);
    proof {
        lemma_nearest(n as int, w as int);
        assert(m <= 0x20000000000000) by (nonlinear_arith)
            requires
                m <= n as int / w as int + 1,
                n < 0x20000000000000 * w,
                w > 0,
        ;
        assert(x * m <= 0xffff_ffff * 0x20000000000000) by (nonlinear_arith)
            requires
                x <= 0xffff_ffff,
                m <= 0x20000000000000,
        ;
    }
    let p: u128 = x as u128 * m;
    let mut spacing: u128 = 1;
    let ghost mut t: nat = 0;
    while p >= 0x20000000000000 * spacing
        invariant
            spacing == pow2(t),
            1 <= spacing <= 0x2_0000_0000,
            pow2(53) == 0x20000000000000,
            t > 0 ==> pow2(53) * pow2((t - 1) as nat) <= p,
            t > 0 ==> spacing == 2 * pow2((t - 1) as nat),
            p <= 0xffff_ffff * 0x20000000000000,
        decreases p - spacing,
    {
        proof {
            lemma_pow2_unfold(t + 1);
        }
        spacing = spacing * 2;
        proof {
            t = t + 1;
        }
    }
    let k = round_nearest(p, spacing);
    proof {
        lemma_nearest(p as int, spacing as int);
        lemma_pow2_pos(s);
        assert(has_bits(a as int, w as int, s));
        assert(has_spacing(p as int, t));
        assert(k * spacing <= p + spacing);
    }
    let product: u128 = k * spacing;
    let whole: u128 = product / units;
    proof {
        assert(is_scaled_at(x as int, a as int, w as int, whole as int, s, t));
        lemma_scaled_at_most(x as int, a as int, w as int, whole as int, s, t, limit);
    }
    whole as u32
}

/// The ratio that a picture is scaled by, where it is larger than 1920 by 1080 in some direction:
/// the smaller of the two that make a side fit.
pub open spec fn ratio(w: int, h: int) -> (int, int) {
    if 1920 * h <= 1080 * w {
        (1920, w)
    } else {
        (1080, h)
    }
}

/// The size that a picture is sent in: its own where it is no larger than 1920 by 1080, else one
/// that fits, with both sides scaled by the same ratio.
pub fn scale_dimensions(w: u32, h: u32) -> (r: (u32, u32))
    ensures
        w <= 1920 && h <= 1080 ==> r == (w, h),
        w > 1920 || h > 1080 ==> {
            &&& is_scaled(w as int, ratio(w as int, h as int).0, ratio(w as int, h as int).1, r.0 as int)
            &&& is_scaled(h as int, ratio(w as int, h as int).0, ratio(w as int, h as int).1, r.1 as int)
        },
        r.0 <= 1920 && r.1 <= 1080,
{
    if w <= 1920 && h <= 1080 {
        return (w, h);
    }
    if 1920 * (h as u64) <= 1080 * (w as u64) {
        (scale_side(w, 1920, w, Ghost(1920)), scale_side(h, 1920, w, Ghost(1080)))
    } else {
        (scale_side(w, 1080, h, Ghost(1920)), scale_side(h, 1080, h, Ghost(1080)))
    }
}

/// The bits per second that a picture of the given size is encoded at: 8 million for 1920 by 1080,
/// and for another size in proportion.
pub fn target_bit_rate(w: u32, h: u32) -> (r: u64)
    requires
        w * h <= u32::MAX,
    ensures
        r == (w * h) * 8_000_000 / 2_073_600,
{
    let area: u32 = w * h;
    area as u64 * 8_000_000 / 2_073_600
}

} // verus!
