//! Integer square roots and scaled quotients.
use vstd::prelude::*;

verus! {

/// The largest natural number whose square is at most `x`.
pub open spec fn floor_sqrt(x: nat) -> nat
    decreases x,
{
    if x == 0 {
        0
    } else {
        let r = floor_sqrt((x - 1) as nat);
        if (r + 1) * (r + 1) <= x {
            (r + 1) as nat
        } else {
            r
        }
    }
}

pub proof fn lemma_floor_sqrt_bounds(x: nat)
    ensures
        floor_sqrt(x) * floor_sqrt(x) <= x,
        x < (floor_sqrt(x) + 1) * (floor_sqrt(x) + 1),
    decreases x,
{
    if x > 0 {
        lemma_floor_sqrt_bounds((x - 1) as nat);
        let r = floor_sqrt((x - 1) as nat);
        let a = (r + 1) * (r + 1);
        assert(a < (r + 2) * (r + 2)) by (nonlinear_arith)
            requires
                a == (r + 1) * (r + 1),
                r >= 0,
        ;
        if a <= x {
            assert(floor_sqrt(x) == r + 1);
        } else {
            assert(floor_sqrt(x) == r);
            assert(r * r <= x);
        }
    } else {
        assert(floor_sqrt(0) == 0);
        assert(0 * 0 == 0) by (nonlinear_arith);
        assert((0 + 1) * (0 + 1) == 1) by (nonlinear_arith);
    }
}

/// A square root is pinned down by its two bounds.
pub proof fn lemma_floor_sqrt_unique(x: nat, s: nat)
    requires
        s * s <= x,
        x < (s + 1) * (s + 1),
    ensures
        floor_sqrt(x) == s,
{
    lemma_floor_sqrt_bounds(x);
    let r = floor_sqrt(x);
    if r < s {
        assert((r + 1) * (r + 1) <= s * s) by (nonlinear_arith)
            requires
                r + 1 <= s,
        ;
    }
    if s < r {
        assert((s + 1) * (s + 1) <= r * r) by (nonlinear_arith)
            requires
                s + 1 <= r,
        ;
    }
}

/// The integer square root, rounded down.
pub fn isqrt(x: u128) -> (r: u64)
    ensures
        r as nat == floor_sqrt(x as nat),
{
    let mut lo: u128 = 0;
    let mut hi: u128 = 0x1_0000_0000_0000_0000;
    assert(x < hi * hi) by (nonlinear_arith)
        requires
            hi == 0x1_0000_0000_0000_0000u128,
            x <= 0xffff_ffff_ffff_ffff_ffff_ffff_ffff_ffffu128,
    ;
    while hi - lo > 1
        invariant
            lo < hi <= 0x1_0000_0000_0000_0000u128,
            lo * lo <= x,
            x < hi * hi,
        decreases hi - lo,
    {
        let mid: u128 = lo + (hi - lo) / 2;
        assert(mid * mid <= 0xffff_ffff_ffff_fffe_0000_0000_0000_0001u128) by (nonlinear_arith)
            requires
                mid <= 0xffff_ffff_ffff_ffffu128,
        ;
        if mid * mid <= x {
            lo = mid;
        } else {
            hi = mid;
        }
    }
    proof {
        lemma_floor_sqrt_unique(x as nat, lo as nat);
    }
    lo as u64
}

/// `n * c / d` rounded toward zero, for a signed `c`.
pub open spec fn scaled(c: int, n: nat, d: nat) -> int {
    if c >= 0 {
        (n * c) / (d as int)
    } else {
        -((n * (-c)) / (d as int))
    }
}

/// Whether `checked_scaled` can compute `scaled(c, n, d)`: the product
/// `n * |c|` fits 128 bits and the quotient's magnitude fits `i64`.
pub open spec fn scaled_fits(c: int, n: nat, d: nat) -> bool {
    let m = if c >= 0 { c } else { -c };
    n * m <= u128::MAX && (n * m) / (d as int) <= i64::MAX
}

/// Computes `n * c / d` rounded toward zero, or `None` where it does not fit.
pub fn checked_scaled(c: i64, n: u128, d: u128) -> (r: Option<i64>)
    requires
        d > 0,
    ensures
        r is Some <==> scaled_fits(c as int, n as nat, d as nat),
        r matches Some(v) ==> v as int == scaled(c as int, n as nat, d as nat),
{
    let neg = c < 0;
    let mag: u128 = if neg { (-(c as i128)) as u128 } else { c as u128 };
    match n.checked_mul(mag) {
        None => None,
        Some(p) => {
            let q = p / d;
            if q > i64::MAX as u128 {
                None
            } else if neg {
                Some(-(q as i64))
            } else {
                Some(q as i64)
            }
        },
    }
}

} // verus!
