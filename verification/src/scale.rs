//! Fractions of a token budget, computed exactly as a multiplication of
//! IEEE-754 doubles followed by a saturating conversion to `usize` would,
//! with integer arithmetic only.

use vstd::prelude::*;
use vstd::arithmetic::power2::{pow2, lemma_pow2_unfold, lemma_pow2_pos, lemma_pow2_adds};
use vstd::arithmetic::div_mod::{lemma_div_denominator, lemma_fundamental_div_mod, lemma_div_is_ordered,
    lemma_div_multiples_vanish, lemma_mod_multiples_basic, lemma_mod_bound};

verus! {

/// The double 0.5, as a multiple of 2^-53.
pub const HALF: u64 = 0x10_0000_0000_0000;

/// The double nearest to 0.7, as a multiple of 2^-53.
pub const SEVEN_TENTHS: u64 = 6305039478318694;

/// The double nearest to 0.9, as a multiple of 2^-53.
pub const NINE_TENTHS: u64 = 8106479329266893;

/// The number of times `x` must be halved to fall below 2^53.
pub open spec fn excess_bits(x: nat) -> nat
    decreases x,
{
    if x < 0x20_0000_0000_0000 {
        0
    } else {
        1 + excess_bits(x / 2)
    }
}

/// `x` rounded to the nearest number with at most 53 significant bits,
/// ties to even: the value of `x` as a double.
pub open spec fn round_to_double(x: nat) -> nat {
    let s = excess_bits(x);
    if s == 0 {
        x
    } else {
        let p = pow2(s);
        let q = x / p;
        let r = x % p;
        let up = r > p / 2 || (r == p / 2 && q % 2 == 1);
        (if up {
            q + 1
        } else {
            q
        }) * p
    }
}

/// What `(m as f64 * c) as usize` gives when the double `c` is
/// `c_num / 2^53` with `c_num < 2^53`: the product of the two doubles,
/// rounded to a double, truncated, and held at `usize::MAX`.
pub open spec fn scaled(m: nat, c_num: nat) -> nat {
    let v = round_to_double(round_to_double(m) * c_num) / pow2(53);
    if v <= usize::MAX {
        v
    } else {
        usize::MAX as nat
    }
}

proof fn lemma_pow2_67()
    ensures
        pow2(67) == 0x8_0000_0000_0000_0000,
{
    vstd::arithmetic::power2::lemma2_to64();
    lemma_pow2_unfold(65);
    lemma_pow2_unfold(66);
    lemma_pow2_unfold(67);
}

/// `x` as a double, for `x < 2^120`; it is at most twice `x`.
fn round_to_double_exec(x: u128) -> (r: u128)
    requires
        x < 0x100_0000_0000_0000_0000_0000_0000_0000,
    ensures
        r == round_to_double(x as nat),
        r <= 2 * x,
{
    let mut p: u128 = 1;
    let mut s: usize = 0;
    proof {
        assert(pow2(0) == 1) by {
            vstd::arithmetic::power2::lemma_pow2(0);
            vstd::arithmetic::power::lemma_pow0(2);
        }
    }
    while x / p >= 0x20_0000_0000_0000
        invariant
            x < 0x100_0000_0000_0000_0000_0000_0000_0000,
            p == pow2(s as nat),
            p > 0,
            s <= 120,
            p <= 0x100_0000_0000_0000_0000_0000_0000_0000,
            excess_bits(x as nat) == s + excess_bits((x / p) as nat),
            s > 0 ==> p <= x,
        decreases 120 - s,
    {
        proof {
            lemma_fundamental_div_mod(x as int, p as int);
            assert(p * 0x20_0000_0000_0000 <= x) by (nonlinear_arith)
                requires
                    x / p >= 0x20_0000_0000_0000,
                    x == p * (x / p) + x % p,
                    x % p >= 0,
                    p > 0,
            ;
            lemma_div_denominator(x as int, p as int, 2);
            lemma_pow2_unfold((s + 1) as nat);
            assert(excess_bits((x / p) as nat) == 1 + excess_bits(((x / p) / 2) as nat));
            assert(p < 0x8_0000_0000_0000_0000) by (nonlinear_arith)
                requires
                    p * 0x20_0000_0000_0000 <= x,
                    x < 0x100_0000_0000_0000_0000_0000_0000_0000,
            ;
            if s >= 67 {
                lemma_pow2_67();
                if s > 67 {
                    vstd::arithmetic::power2::lemma_pow2_strictly_increases(67, s as nat);
                }
                assert(false);
            }
        }
        p = p * 2;
        s = s + 1;
    }
    if s == 0 {
        return x;
    }
    let q = x / p;
    let rem = x % p;
    let half = p / 2;
    let up = rem > half || (rem == half && q % 2 == 1);
    let q2 = if up {
        q + 1
    } else {
        q
    };
    proof {
        lemma_fundamental_div_mod(x as int, p as int);
        assert(q2 * p <= x + p) by (nonlinear_arith)
            requires
                x == p * q + rem,
                rem >= 0,
                q2 <= q + 1,
        ;
    }
    q2 * p
}

/// `(m as f64 * c) as usize` for the double `c == c_num / 2^53`.
pub fn scaled_exec(m: usize, c_num: u64) -> (r: usize)
    requires
        c_num < 0x20_0000_0000_0000,
    ensures
        r == scaled(m as nat, c_num as nat),
{
    let mf = round_to_double_exec(m as u128);
    assert(mf * c_num <= 0x2_0000_0000_0000_0000 * 0x20_0000_0000_0000) by (nonlinear_arith)
        requires
            mf <= 2 * m,
            m <= 0xFFFF_FFFF_FFFF_FFFF,
            c_num < 0x20_0000_0000_0000,
    ;
    let product = mf * (c_num as u128);
    let rounded = round_to_double_exec(product);
    proof {
        assert(pow2(53) == 0x20_0000_0000_0000) by {
            vstd::arithmetic::power2::lemma2_to64_rest();
        }
    }
    let v = rounded / 0x20_0000_0000_0000;
    if v <= usize::MAX as u128 {
        v as usize
    } else {
        usize::MAX
    }
}


// ---------------------------------------------------------------------
// Facts about rounding to a double
// ---------------------------------------------------------------------

proof fn lemma_pow2_zero()
    ensures
        pow2(0) == 1,
        forall|x: nat| #[trigger] (x / pow2(0)) == x,
{
    vstd::arithmetic::power2::lemma2_to64();
    assert forall|x: nat| #[trigger] (x / pow2(0)) == x by {
        lemma_fundamental_div_mod(x as int, 1);
        lemma_mod_bound(x as int, 1);
    }
}

/// After [`excess_bits`] halvings `x` is below 2^53, and one halving fewer
/// it is not.
proof fn lemma_excess_bound(x: nat)
    ensures
        x / pow2(excess_bits(x)) < 0x20_0000_0000_0000,
        excess_bits(x) > 0 ==> x / pow2((excess_bits(x) - 1) as nat) >= 0x20_0000_0000_0000,
    decreases x,
{
    lemma_pow2_zero();
    let e = excess_bits(x);
    if x >= 0x20_0000_0000_0000 {
        let y = x / 2;
        lemma_excess_bound(y);
        lemma_pow2_unfold(e);
        lemma_pow2_pos((e - 1) as nat);
        lemma_div_denominator(x as int, 2, pow2((e - 1) as nat) as int);
        if e - 1 > 0 {
            lemma_pow2_unfold((e - 1) as nat);
            lemma_pow2_pos((e - 2) as nat);
            lemma_div_denominator(x as int, 2, pow2((e - 2) as nat) as int);
        }
    }
}

/// When `t` halvings bring `x` below 2^53, so do [`excess_bits`] of them.
proof fn lemma_excess_min(x: nat, t: nat)
    requires
        x / pow2(t) < 0x20_0000_0000_0000,
    ensures
        excess_bits(x) <= t,
    decreases t,
{
    lemma_pow2_zero();
    if x >= 0x20_0000_0000_0000 {
        if t == 0 {
            assert(false);
        } else {
            lemma_pow2_unfold(t);
            lemma_pow2_pos((t - 1) as nat);
            lemma_div_denominator(x as int, 2, pow2((t - 1) as nat) as int);
            lemma_excess_min(x / 2, (t - 1) as nat);
        }
    }
}

/// Bounds on a rounded value: below 2^53 units of its precision, at least
/// 2^52 of them when rounding was needed, and more than `x` by at most a
/// 2^53th of `x`.
proof fn lemma_round_bounds(x: nat)
    ensures
        round_to_double(x) <= 0x20_0000_0000_0000 * pow2(excess_bits(x)),
        excess_bits(x) > 0 ==> round_to_double(x) >= 0x10_0000_0000_0000 * pow2(excess_bits(x)),
        0x20_0000_0000_0000 * round_to_double(x) <= (0x20_0000_0000_0000 + 1) * x,
{
    lemma_pow2_zero();
    lemma_excess_bound(x);
    let s = excess_bits(x);
    if s > 0 {
        let p = pow2(s);
        let h = pow2((s - 1) as nat);
        lemma_pow2_unfold(s);
        lemma_pow2_pos((s - 1) as nat);
        lemma_div_denominator(x as int, h as int, 2);
        let q = x / p;
        let r = x % p;
        lemma_fundamental_div_mod(x as int, p as int);
        lemma_mod_bound(x as int, p as int);
        assert(q >= 0x10_0000_0000_0000);
        assert(p / 2 == h);
        let up = r > p / 2 || (r == p / 2 && q % 2 == 1);
        let q2 = if up {
            q + 1
        } else {
            q
        };
        assert(round_to_double(x) == q2 * p);
        assert(q2 * p <= 0x20_0000_0000_0000 * p) by (nonlinear_arith)
            requires
                q2 <= q + 1,
                q < 0x20_0000_0000_0000,
                p > 0,
        ;
        assert(q2 * p >= 0x10_0000_0000_0000 * p) by (nonlinear_arith)
            requires
                q2 >= q,
                q >= 0x10_0000_0000_0000,
                p > 0,
        ;
        assert(0x20_0000_0000_0000 * (q2 * p) <= (0x20_0000_0000_0000 + 1) * x) by (nonlinear_arith)
            requires
                x == p * q + r,
                0 <= r < p,
                p == 2 * h,
                h > 0,
                q >= 0x10_0000_0000_0000,
                q2 == q || (q2 == q + 1 && r >= h),
        ;
        assert(0x20_0000_0000_0000 * round_to_double(x) <= (0x20_0000_0000_0000 + 1) * x);
    } else {
        assert(x / pow2(0) == x);
        assert(round_to_double(x) == x);
        assert(0x20_0000_0000_0000 * x <= (0x20_0000_0000_0000 + 1) * x) by (nonlinear_arith);
    }
}

/// Rounding to a double keeps order.
pub proof fn lemma_round_monotone(x: nat, y: nat)
    requires
        x <= y,
    ensures
        round_to_double(x) <= round_to_double(y),
{
    let sx = excess_bits(x);
    let sy = excess_bits(y);
    lemma_excess_bound(y);
    lemma_pow2_pos(sy);
    lemma_div_is_ordered(x as int, y as int, pow2(sy) as int);
    lemma_excess_min(x, sy);
    lemma_round_bounds(x);
    lemma_round_bounds(y);
    if sx == sy && sx > 0 {
        let p = pow2(sx);
        lemma_pow2_pos(sx);
        lemma_fundamental_div_mod(x as int, p as int);
        lemma_fundamental_div_mod(y as int, p as int);
        lemma_mod_bound(x as int, p as int);
        lemma_mod_bound(y as int, p as int);
        lemma_div_is_ordered(x as int, y as int, p as int);
        let qx = x / p;
        let qy = y / p;
        let rx = x % p;
        let ry = y % p;
        let upx = rx > p / 2 || (rx == p / 2 && qx % 2 == 1);
        let upy = ry > p / 2 || (ry == p / 2 && qy % 2 == 1);
        let q2x = if upx {
            qx + 1
        } else {
            qx
        };
        let q2y = if upy {
            qy + 1
        } else {
            qy
        };
        if qx == qy {
            assert(rx <= ry);
            assert(q2x <= q2y);
        } else {
            assert(q2x <= q2y);
        }
        assert(q2x * p <= q2y * p) by (nonlinear_arith)
            requires
                q2x <= q2y,
                p > 0,
        ;
    } else if sx < sy {
        lemma_pow2_adds(sx + 1, (sy - sx - 1) as nat);
        lemma_pow2_unfold(sx + 1);
        lemma_pow2_pos((sy - sx - 1) as nat);
        lemma_pow2_pos(sx);
        assert(pow2(sy) >= 2 * pow2(sx)) by (nonlinear_arith)
            requires
                pow2(sy) == pow2(sx + 1) * pow2((sy - sx - 1) as nat),
                pow2(sx + 1) == 2 * pow2(sx),
                pow2((sy - sx - 1) as nat) >= 1,
                pow2(sx) > 0,
        ;
    }
}

/// Multiples of 2^52 of a number below 2^53 are doubles already.
proof fn lemma_round_exact_half(m: nat)
    requires
        m < 0x20_0000_0000_0000,
    ensures
        round_to_double(m * 0x10_0000_0000_0000) == m * 0x10_0000_0000_0000,
{
    let x = m * 0x10_0000_0000_0000;
    vstd::arithmetic::power2::lemma2_to64_rest();
    lemma_div_multiples_vanish(m as int, 0x10_0000_0000_0000);
    assert(x / pow2(52) == m);
    lemma_excess_min(x, 52);
    let s = excess_bits(x);
    if s > 0 {
        let p = pow2(s);
        let k = pow2((52 - s) as nat);
        lemma_pow2_adds(s, (52 - s) as nat);
        lemma_pow2_pos(s);
        lemma_pow2_unfold(s);
        lemma_pow2_pos((s - 1) as nat);
        assert(x == (m * k) * p) by (nonlinear_arith)
            requires
                x == m * 0x10_0000_0000_0000,
                0x10_0000_0000_0000 == p * k,
        ;
        lemma_mod_multiples_basic((m * k) as int, p as int);
        lemma_div_multiples_vanish((m * k) as int, p as int);
        assert(p * (m * k) == (m * k) * p) by (nonlinear_arith);
        assert(x % p == 0);
        assert(x / p == m * k);
        assert(p / 2 >= 1);
    }
}

/// The thresholds of a token budget `m` are ordered (half, then 70%, then
/// 90%), none exceeds the budget, and below 2^53 the first is exactly half
/// of it, rounded down.
pub proof fn law_threshold_order(m: nat)
    requires
        m <= usize::MAX,
    ensures
        scaled(m, HALF as nat) <= scaled(m, SEVEN_TENTHS as nat),
        scaled(m, SEVEN_TENTHS as nat) <= scaled(m, NINE_TENTHS as nat),
        scaled(m, NINE_TENTHS as nat) <= m,
        m < 0x20_0000_0000_0000 ==> scaled(m, HALF as nat) == m / 2,
{
    let t53: nat = 0x20_0000_0000_0000;
    vstd::arithmetic::power2::lemma2_to64_rest();
    assert(pow2(53) == t53);
    let mf = round_to_double(m);
    let c5: nat = HALF as nat;
    let c7: nat = SEVEN_TENTHS as nat;
    let c9: nat = NINE_TENTHS as nat;
    assert(mf * c5 <= mf * c7 && mf * c7 <= mf * c9) by (nonlinear_arith)
        requires
            c5 <= c7 <= c9,
    ;
    lemma_round_monotone(mf * c5, mf * c7);
    lemma_round_monotone(mf * c7, mf * c9);
    let r5 = round_to_double(mf * c5);
    let r7 = round_to_double(mf * c7);
    let r9 = round_to_double(mf * c9);
    lemma_div_is_ordered(r5 as int, r7 as int, t53 as int);
    lemma_div_is_ordered(r7 as int, r9 as int, t53 as int);
    // The largest threshold is at most the budget.
    lemma_round_bounds(m);
    lemma_round_bounds(mf * c9);
    assert(t53 * t53 * r9 <= (t53 + 1) * c9 * (t53 * mf)) by (nonlinear_arith)
        requires
            t53 * r9 <= (t53 + 1) * (mf * c9),
    ;
    assert((t53 + 1) * c9 * (t53 * mf) <= (t53 + 1) * c9 * ((t53 + 1) * m)) by (nonlinear_arith)
        requires
            t53 * mf <= (t53 + 1) * m,
    ;
    assert(9007199254740993nat * 8106479329266893nat * 9007199254740993nat
        <= 9007199254740992nat * 9007199254740992nat * 9007199254740992nat);
    assert((t53 + 1) * c9 * (t53 + 1) <= t53 * t53 * t53);
    assert(t53 * t53 * r9 <= t53 * t53 * t53 * m) by (nonlinear_arith)
        requires
            t53 * t53 * r9 <= (t53 + 1) * c9 * ((t53 + 1) * m),
            (t53 + 1) * c9 * (t53 + 1) <= t53 * t53 * t53,
    ;
    assert(r9 <= t53 * m) by (nonlinear_arith)
        requires
            t53 * t53 * r9 <= t53 * t53 * t53 * m,
            t53 > 0,
    ;
    lemma_div_multiples_vanish(m as int, t53 as int);
    lemma_div_is_ordered(r9 as int, (t53 * m) as int, t53 as int);
    // Below 2^53 the half is exact.
    if m < t53 {
        assert(mf == m);
        lemma_round_exact_half(m);
        assert(c5 == 0x10_0000_0000_0000);
        lemma_div_denominator((m * c5) as int, c5 as int, 2);
        lemma_div_multiples_vanish(m as int, c5 as int);
        assert(c5 * m == m * c5) by (nonlinear_arith);
        assert(c5 * 2 == t53);
    }
}

} // verus!
