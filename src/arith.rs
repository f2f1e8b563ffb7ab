use vstd::prelude::*;

verus! {

/// `n / d` rounded toward zero, as Rust's integer division does.
pub open spec fn trunc_div(n: int, d: int) -> int {
    if n >= 0 {
        n / d
    } else {
        -((-n) / d)
    }
}

/// `a * b / d` rounded toward zero, for a non-negative factor `b` no larger than `d`.
pub fn mul_div_trunc(a: i64, b: i64, d: i64) -> (r: i64)
    requires
        -0x4000_0000_0000_0000 <= a <= 0x4000_0000_0000_0000,
        0 <= b <= d,
        0 < d,
    ensures
        r == trunc_div(a * b, d as int),
        -a <= r <= a || a <= r <= -a,
{
    let ghost p = a * b;
    assert(-0x4000_0000_0000_0000_0000_0000_0000_0000 < a * b < 0x4000_0000_0000_0000_0000_0000_0000_0000) by (nonlinear_arith)
        requires -0x4000_0000_0000_0000 <= a <= 0x4000_0000_0000_0000, 0 <= b < 0x8000_0000_0000_0000;
    let prod: i128 = a as i128 * b as i128;
    if prod >= 0 {
        let q = (prod as u128) / (d as u128);
        proof {
            lemma_quotient_bounded(a as int, b as int, d as int);
        }
        q as i64
    } else {
        let q = ((-prod) as u128) / (d as u128);
        proof {
            assert(-prod == (-a) * b) by (nonlinear_arith)
                requires prod == a * b;
            lemma_quotient_bounded(-a, b as int, d as int);
        }
        -(q as i64)
    }
}

/// For `0 <= a * b` and `0 <= b <= d`, the quotient `a * b / d` lies in `[0, |a|]`.
proof fn lemma_quotient_bounded(a: int, b: int, d: int)
    requires
        0 <= a * b,
        0 <= b <= d,
        0 < d,
    ensures
        0 <= (a * b) / d,
        a >= 0 ==> (a * b) / d <= a,
        a < 0 ==> a * b == 0,
{
    let n = a * b;
    vstd::arithmetic::div_mod::lemma_div_pos_is_pos(n, d);
    if a >= 0 {
        assert(n <= a * d) by (nonlinear_arith)
            requires n == a * b, 0 <= b <= d, a >= 0;
        vstd::arithmetic::div_mod::lemma_div_is_ordered(n, a * d, d);
        vstd::arithmetic::div_mod::lemma_div_multiples_vanish(a, d);
    } else {
        assert(n == 0) by (nonlinear_arith)
            requires n == a * b, 0 <= b, a < 0, 0 <= n;
    }
}

/// Floor of the square root of `n`.
pub fn isqrt(n: u128) -> (r: u64)
    requires
        n < 0x10_0000_0000_0000_0000_0000,
    ensures
        r * r <= n < (r + 1) * (r + 1),
{
    let mut lo: u64 = 0;
    let mut hi: u64 = 0x400_0000_0000;
    assert(hi * hi == 0x10_0000_0000_0000_0000_0000) by (nonlinear_arith)
        requires hi == 0x400_0000_0000;
    while hi - lo > 1
        invariant
            lo < hi <= 0x400_0000_0000,
            lo * lo <= n,
            n < hi * hi,
        decreases hi - lo,
    {
        let mid = lo + (hi - lo) / 2;
        assert(mid * mid <= 0x10_0000_0000_0000_0000_0000) by (nonlinear_arith)
            requires mid <= 0x400_0000_0000;
        if (mid as u128) * (mid as u128) <= n {
            lo = mid;
        } else {
            hi = mid;
        }
    }
    lo
}

} // verus!
