//! Integer-only pool arithmetic: the floor square root that prices a pool's
//! first liquidity, share minting and burning, and the constant-product swap.
use vstd::prelude::*;

verus! {

/// Numerator of the fraction of a swap's input that counts towards the price
/// (the rest, 0.3%, is the fee kept by the pool).
pub const FEE_NUMERATOR: u64 = 997;

/// Denominator of the fee fraction.
pub const FEE_DENOMINATOR: u64 = 1000;

/// The largest `r` with `r * r <= n`.
pub open spec fn sqrt_floor(n: nat) -> nat
    decreases n,
{
    if n == 0 {
        0
    } else {
        let r = sqrt_floor((n - 1) as nat);
        if (r + 1) * (r + 1) <= n {
            r + 1
        } else {
            r
        }
    }
}

/// `sqrt_floor(n)` is the unique root: its square fits under `n`, the next
/// square does not.
pub proof fn lemma_sqrt_floor(n: nat)
    ensures
        sqrt_floor(n) * sqrt_floor(n) <= n,
        n < (sqrt_floor(n) + 1) * (sqrt_floor(n) + 1),
    decreases n,
{
    if n > 0 {
        lemma_sqrt_floor((n - 1) as nat);
        let r = sqrt_floor((n - 1) as nat);
        assert((r + 1) * (r + 1) == r * r + 2 * r + 1) by (nonlinear_arith);
        assert((r + 2) * (r + 2) == (r + 1) * (r + 1) + 2 * r + 3) by (nonlinear_arith);
        let s = sqrt_floor(n);
        if (r + 1) * (r + 1) <= n {
            assert(s == r + 1);
            assert(s * s == (r + 1) * (r + 1));
            assert((s + 1) * (s + 1) == (r + 2) * (r + 2));
        } else {
            assert(s == r);
        }
        assert(s * s <= n);
        assert(n < (s + 1) * (s + 1));
    } else {
        assert(sqrt_floor(n) == 0);
        assert((0nat + 1) * (0nat + 1) == 1) by (nonlinear_arith);
    }
}

proof fn lemma_sqrt_unique(n: nat, r: nat)
    requires
        r * r <= n,
        n < (r + 1) * (r + 1),
    ensures
        r == sqrt_floor(n),
{
    lemma_sqrt_floor(n);
    let s = sqrt_floor(n);
    if r < s {
        assert((r + 1) * (r + 1) <= s * s) by (nonlinear_arith)
            requires r + 1 <= s;
    } else if s < r {
        assert((s + 1) * (s + 1) <= r * r) by (nonlinear_arith)
            requires s + 1 <= r;
    }
}

/// Floor square root of a 128-bit value, by bisection.
pub fn isqrt(n: u128) -> (r: u64)
    requires
        n <= 0xffff_ffff_ffff_fffe_0000_0000_0000_0001,
    ensures
        r as nat == sqrt_floor(n as nat),
{
    let mut lo: u128 = 0;
    let mut hi: u128 = 0x1_0000_0000_0000_0000;
    assert(hi * hi == 0x1_0000_0000_0000_0000_0000_0000_0000_0000) by (nonlinear_arith)
        requires hi == 0x1_0000_0000_0000_0000u128;
    while hi - lo > 1
        invariant
            lo < hi <= 0x1_0000_0000_0000_0000,
            lo * lo <= n,
            n < hi * hi,
        decreases hi - lo,
    {
        let mid: u128 = lo + (hi - lo) / 2;
        assert(mid * mid <= 0xffff_ffff_ffff_fffe_0000_0000_0000_0001) by (nonlinear_arith)
            requires mid < 0x1_0000_0000_0000_0000;
        if mid * mid <= n {
            lo = mid;
        } else {
            hi = mid;
        }
    }
    proof {
        lemma_sqrt_unique(n as nat, lo as nat);
    }
    lo as u64
}

pub open spec fn min_nat(x: nat, y: nat) -> nat {
    if x <= y {
        x
    } else {
        y
    }
}

/// `x / y` rounded up.
pub open spec fn ceil_div(x: nat, y: nat) -> nat
    recommends
        y > 0,
{
    ((x + y - 1) as nat) / y
}

/// Shares minted, and amounts of each asset taken into the reserves, when
/// `amount_a` and `amount_b` are offered to a pool with reserves `(ra, rb)`
/// and `supply` outstanding shares.
///
/// An empty pool mints the floored geometric mean of the two amounts and
/// takes both whole. Otherwise the smaller of the two ratio-implied share
/// counts is minted, and each asset is taken in the amount those shares are
/// worth at the current price, rounded up in the pool's favour; what is left
/// of the offered amounts is not taken.
pub open spec fn mint(ra: nat, rb: nat, supply: nat, amount_a: nat, amount_b: nat) -> (nat, nat, nat) {
    if supply == 0 {
        (sqrt_floor(amount_a * amount_b), amount_a, amount_b)
    } else {
        let s = min_nat(amount_a * supply / ra, amount_b * supply / rb);
        (s, ceil_div(s * ra, supply), ceil_div(s * rb, supply))
    }
}

/// Amounts of each asset paid out for burning `liquidity` of `supply` shares:
/// the proportional part of each reserve, rounded down (nothing when no
/// shares are outstanding).
pub open spec fn burn(ra: nat, rb: nat, supply: nat, liquidity: nat) -> (nat, nat) {
    if supply == 0 {
        (0, 0)
    } else {
        (ra * liquidity / supply, rb * liquidity / supply)
    }
}

/// Output of a swap of `input` into a pool with `reserve_in` and
/// `reserve_out`: `floor(reserve_out * x / (reserve_in + x))` where
/// `x = input * 997 / 1000` is the input after the 0.3% fee, taken exactly
/// (both sides of the fraction scaled by 1000) so that only the result is
/// rounded.
pub open spec fn swap_output(reserve_in: nat, reserve_out: nat, input: nat) -> nat {
    (reserve_out * (input * FEE_NUMERATOR as nat)) / (reserve_in * FEE_DENOMINATOR as nat + input * FEE_NUMERATOR as nat)
}

/// Computes `mint`; the share count is wide since it may exceed 64 bits.
pub fn mint_amounts(ra: u64, rb: u64, supply: u64, amount_a: u64, amount_b: u64) -> (r: (u128, u64, u64))
    requires
        supply > 0 ==> ra > 0 && rb > 0,
    ensures
        (r.0 as nat, r.1 as nat, r.2 as nat) == mint(ra as nat, rb as nat, supply as nat, amount_a as nat, amount_b as nat),
        r.1 <= amount_a,
        r.2 <= amount_b,
{
    if supply == 0 {
        proof {
            lemma_mul_u64(amount_a as nat, amount_b as nat);
        }
        let p: u128 = amount_a as u128 * amount_b as u128;
        let s = isqrt(p);
        (s as u128, amount_a, amount_b)
    } else {
        proof {
            lemma_mul_u64(amount_a as nat, supply as nat);
            lemma_mul_u64(amount_b as nat, supply as nat);
        }
        let pa: u128 = amount_a as u128 * supply as u128;
        let pb: u128 = amount_b as u128 * supply as u128;
        let sa: u128 = pa / ra as u128;
        let sb: u128 = pb / rb as u128;
        let s: u128 = if sa <= sb { sa } else { sb };
        // s * ra <= amount_a * supply, and likewise for b
        proof {
            assert(sa * ra <= pa) by (nonlinear_arith)
                requires sa == pa as int / ra as int, ra > 0, pa >= 0;
            assert(sb * rb <= pb) by (nonlinear_arith)
                requires sb == pb as int / rb as int, rb > 0, pb >= 0;
            assert(s * ra <= sa * ra) by (nonlinear_arith)
                requires s <= sa;
            assert(s * rb <= sb * rb) by (nonlinear_arith)
                requires s <= sb;
        }
        let ua: u128 = (s * ra as u128 + (supply as u128 - 1)) / supply as u128;
        let ub: u128 = (s * rb as u128 + (supply as u128 - 1)) / supply as u128;
        proof {
            lemma_ceil_div_le((s * ra) as nat, amount_a as nat, supply as nat);
            lemma_ceil_div_le((s * rb) as nat, amount_b as nat, supply as nat);
        }
        (s, ua as u64, ub as u64)
    }
}

proof fn lemma_mul_u64(x: nat, y: nat)
    requires
        x <= 0xffff_ffff_ffff_ffff,
        y <= 0xffff_ffff_ffff_ffff,
    ensures
        x * y <= 0xffff_ffff_ffff_fffe_0000_0000_0000_0001,
{
    assert(x * y <= 0xffff_ffff_ffff_ffff * 0xffff_ffff_ffff_ffff) by (nonlinear_arith)
        requires x <= 0xffff_ffff_ffff_ffff, y <= 0xffff_ffff_ffff_ffff;
}

/// `x <= k * d` gives `ceil(x / d) <= k`.
proof fn lemma_ceil_div_le(x: nat, k: nat, d: nat)
    requires
        d > 0,
        x <= k * d,
    ensures
        ceil_div(x, d) <= k,
{
    assert(((x + d - 1) as nat) / d <= k) by (nonlinear_arith)
        requires x <= k * d, d > 0;
}

/// Computes `burn`; each amount is at most its reserve.
pub fn burn_amounts(ra: u64, rb: u64, supply: u64, liquidity: u64) -> (r: (u64, u64))
    requires
        supply > 0,
        liquidity <= supply,
    ensures
        (r.0 as nat, r.1 as nat) == burn(ra as nat, rb as nat, supply as nat, liquidity as nat),
        r.0 <= ra,
        r.1 <= rb,
{
    proof {
        lemma_mul_u64(ra as nat, liquidity as nat);
        lemma_mul_u64(rb as nat, liquidity as nat);
    }
    let pa: u128 = ra as u128 * liquidity as u128;
    let pb: u128 = rb as u128 * liquidity as u128;
    let oa: u128 = pa / supply as u128;
    let ob: u128 = pb / supply as u128;
    proof {
        assert(oa <= ra) by (nonlinear_arith)
            requires oa == pa as int / supply as int, pa == ra * liquidity, liquidity <= supply, supply > 0, ra >= 0;
        assert(ob <= rb) by (nonlinear_arith)
            requires ob == pb as int / supply as int, pb == rb * liquidity, liquidity <= supply, supply > 0, rb >= 0;
    }
    (oa as u64, ob as u64)
}

/// `floor(a * x / d)` for a product too wide for 128 bits: `x` is split at
/// 32 bits, and the high half's remainder is carried into the low half.
fn mul_div(a: u64, x: u128, d: u128) -> (r: u64)
    requires
        0 < d,
        x <= d,
        d < 0x1000_0000_0000_0000_0000,
    ensures
        r as nat == (a as nat * x as nat) / d as nat,
{
    let k: u128 = 0x1_0000_0000;
    let xh: u128 = x / k;
    let xl: u128 = x % k;
    assert(xh < 0x1000_0000_0000);
    assert(a as int * xh as int <= 0xffff_ffff_ffff_ffff * 0x1000_0000_0000) by (nonlinear_arith)
        requires a <= 0xffff_ffff_ffff_ffff, xh < 0x1000_0000_0000, xh >= 0;
    let p1: u128 = a as u128 * xh;
    let q1: u128 = p1 / d;
    let r1: u128 = p1 % d;
    assert(r1 as int * k as int <= 0x1000_0000_0000_0000_0000 * 0x1_0000_0000) by (nonlinear_arith)
        requires r1 < d, d < 0x1000_0000_0000_0000_0000, k == 0x1_0000_0000u128, r1 >= 0;
    assert(a as int * xl as int <= 0xffff_ffff_ffff_ffff * 0x1_0000_0000) by (nonlinear_arith)
        requires a <= 0xffff_ffff_ffff_ffff, xl < 0x1_0000_0000, xl >= 0;
    let t: u128 = r1 * k + a as u128 * xl;
    let q2: u128 = t / d;
    let ghost n: int = a as int * x as int;
    proof {
        let di = d as int;
        vstd::arithmetic::div_mod::lemma_fundamental_div_mod(x as int, k as int);
        vstd::arithmetic::div_mod::lemma_fundamental_div_mod(p1 as int, di);
        assert(n == p1 * k + a as int * xl) by (nonlinear_arith)
            requires n == a as int * x as int, x as int == k * xh + xl, p1 == a as int * xh as int;
        assert(n == t + (q1 as int * k as int) * di) by (nonlinear_arith)
            requires n == p1 * k + a as int * xl, p1 as int == di * q1 + r1, t == r1 * k + a as int * xl;
        vstd::arithmetic::div_mod::lemma_hoist_over_denominator(t as int, q1 as int * k as int, d as nat);
        assert(n / di <= a) by (nonlinear_arith)
            requires n == a as int * x as int, x <= di, di > 0, a >= 0, x >= 0;
        assert(q1 as int * k as int <= n / di) by (nonlinear_arith)
            requires n / di == t as int / di + q1 as int * k as int, t >= 0, di > 0;
    }
    let hi: u128 = q1 * k;
    (hi + q2) as u64
}

/// Computes `swap_output`; on a pool with a non-empty input reserve the
/// output is below the output reserve.
pub fn swap_amount(reserve_in: u64, reserve_out: u64, input: u64) -> (r: u64)
    requires
        reserve_in > 0,
    ensures
        r as nat == swap_output(reserve_in as nat, reserve_out as nat, input as nat),
        r <= reserve_out,
        reserve_out > 0 ==> r < reserve_out,
{
    proof {
        lemma_mul_u64(input as nat, FEE_NUMERATOR as nat);
        lemma_mul_u64(reserve_in as nat, FEE_DENOMINATOR as nat);
    }
    let x: u128 = input as u128 * FEE_NUMERATOR as u128;
    let den: u128 = reserve_in as u128 * FEE_DENOMINATOR as u128 + x;
    let out = mul_div(reserve_out, x, den);
    proof {
        let ro = reserve_out as int;
        let di = den as int;
        let n = ro * x as int;
        assert(out as int == n / di);
        vstd::arithmetic::div_mod::lemma_fundamental_div_mod(n, di);
        assert(n % di >= 0) by (nonlinear_arith)
            requires di > 0;
        assert(out * di <= n) by (nonlinear_arith)
            requires n == di * out + n % di, n % di >= 0;
        assert(n <= ro * di) by (nonlinear_arith)
            requires n == ro * x, x < di, ro >= 0, x >= 0;
        if out as int > ro {
            assert(out as int * di >= (ro + 1) * di) by (nonlinear_arith)
                requires out as int >= ro + 1, di > 0;
            assert((ro + 1) * di == ro * di + di) by (nonlinear_arith);
        }
        if reserve_out > 0 {
            assert(n < ro * di) by (nonlinear_arith)
                requires n == ro * x, x < di, ro > 0, x >= 0;
            if out as int >= ro {
                assert(out as int * di >= ro * di) by (nonlinear_arith)
                    requires out as int >= ro, di > 0;
            }
        }
    }
    out
}

} // verus!
