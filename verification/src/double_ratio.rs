//! The ratio of two counters as the double that `a as f64 / t as f64`
//! gives, computed exactly with integers: each counter rounds to the
//! nearest double, and so does their quotient (ties to even). A positive
//! double is kept as a mantissa `m`, with `2^52 <= m < 2^53`, and an
//! exponent `k`, for the value `m * 2^k`; zero is `(0, 0)`.

use vstd::arithmetic::power2::{
    lemma2_to64, lemma2_to64_rest, lemma_pow2_adds, lemma_pow2_pos, lemma_pow2_strictly_increases,
    lemma_pow2_unfold, pow2,
};
use vstd::prelude::*;

verus! {

/// The number of binary digits of `n`.
pub open spec fn bit_len(n: nat) -> nat
    decreases n,
{
    if n == 0 {
        0
    } else {
        1 + bit_len(n / 2)
    }
}

/// `x / y` rounded to the nearest integer, ties to the even one.
pub open spec fn round_half_even(x: nat, y: nat) -> nat {
    let f = x / y;
    let r = x % y;
    if 2 * r > y || (2 * r == y && f % 2 == 1) {
        f + 1
    } else {
        f
    }
}

/// The value of `a as f64`: `a` itself below `2^53`, otherwise `a` rounded
/// to the 53 leading binary digits.
pub open spec fn u64_as_double(a: u64) -> nat {
    if a < pow2(53) {
        a as nat
    } else {
        let y = pow2((bit_len(a as nat) - 53) as nat);
        round_half_even(a as nat, y) * y
    }
}

/// `num / (den * 2^k)` as a numerator and a denominator.
pub open spec fn scaled_pair(num: nat, den: nat, k: int) -> (nat, nat) {
    if k >= 0 {
        (num, den * pow2(k as nat))
    } else {
        (num * pow2((-k) as nat), den)
    }
}

/// The exponent `k` with `2^52 <= num / (den * 2^k) < 2^53`, for positive
/// `num` and `den`: the first candidate from the binary lengths, or the one
/// below it.
pub open spec fn binade(num: nat, den: nat) -> int {
    let k0 = bit_len(num) - bit_len(den) - 52;
    let p = scaled_pair(num, den, k0);
    if p.0 / p.1 >= pow2(52) {
        k0
    } else {
        k0 - 1
    }
}

/// The double nearest to `num / den` (ties to even), as `(m, k)`.
pub open spec fn nearest_double(num: nat, den: nat) -> (nat, int) {
    if num == 0 {
        (0, 0)
    } else {
        let k = binade(num, den);
        let p = scaled_pair(num, den, k);
        let m = round_half_even(p.0, p.1);
        if m == pow2(53) {
            (pow2(52), k + 1)
        } else {
            (m, k)
        }
    }
}

/// The double `a as f64 / t as f64`, for `t > 0`.
pub open spec fn quotient_double(a: u64, t: u64) -> (nat, int) {
    nearest_double(u64_as_double(a), u64_as_double(t))
}

/// `x < y` for two non-negative doubles.
pub open spec fn double_lt(x: (nat, int), y: (nat, int)) -> bool {
    y.0 != 0 && (x.0 == 0 || x.1 < y.1 || (x.1 == y.1 && x.0 < y.0))
}

/// `x` and `y` are the same double: both zero, or the same mantissa and exponent.
pub open spec fn same_double(x: (nat, int), y: (nat, int)) -> bool {
    (x.0 == 0 && y.0 == 0) || x == y
}

/// The order of doubles is a strict order whose ties are the same doubles.
pub proof fn lemma_double_order(x: (nat, int), y: (nat, int), z: (nat, int))
    ensures
        !double_lt(x, x),
        double_lt(x, y) ==> !double_lt(y, x),
        double_lt(x, y) && double_lt(y, z) ==> double_lt(x, z),
        same_double(x, y) || double_lt(x, y) || double_lt(y, x),
        same_double(x, y) ==> !double_lt(x, y) && !double_lt(y, x),
        same_double(x, y) ==> same_double(y, x),
        same_double(x, y) && same_double(y, z) ==> same_double(x, z),
        same_double(x, y) && double_lt(y, z) ==> double_lt(x, z),
        double_lt(x, y) && same_double(y, z) ==> double_lt(x, z),
{
}

/// `x` is zero or a normal double.
pub open spec fn is_normal_or_zero(x: (nat, int)) -> bool {
    x.0 == 0 || pow2(52) <= x.0 < pow2(53)
}

/// The values `m * 2^k` of `x` and `y` brought to the smaller exponent, so
/// that they compare as integers.
pub open spec fn common_scale(x: (nat, int), y: (nat, int)) -> (nat, nat) {
    if x.1 <= y.1 {
        (x.0, y.0 * pow2((y.1 - x.1) as nat))
    } else {
        (x.0 * pow2((x.1 - y.1) as nat), y.0)
    }
}

/// For zero and normal doubles, `double_lt` is the order of their values,
/// and the same doubles are those of equal value.
pub proof fn lemma_double_lt_is_value_order(x: (nat, int), y: (nat, int))
    requires
        is_normal_or_zero(x),
        is_normal_or_zero(y),
    ensures
        double_lt(x, y) <==> common_scale(x, y).0 < common_scale(x, y).1,
        same_double(x, y) <==> common_scale(x, y).0 == common_scale(x, y).1,
{
    lemma_pow2_values();
    lemma2_to64();
    let c = common_scale(x, y);
    if x.1 == y.1 {
        assert((y.1 - x.1) as nat == 0);
        assert(pow2(0) == 1);
        assert(c.1 == y.0 * pow2(0));
        assert(c.1 == y.0);
    } else if x.1 < y.1 {
        let d = (y.1 - x.1) as nat;
        lemma_pow2_le(1, d);
        if y.0 == 0 {
            assert(c.1 == 0);
        } else {
            assert(c.1 >= pow2(52) * 2) by (nonlinear_arith)
                requires
                    c.1 == y.0 * pow2(d),
                    y.0 >= pow2(52),
                    pow2(d) >= 2,
            ;
            assert(c.0 < c.1);
        }
    } else {
        let d = (x.1 - y.1) as nat;
        lemma_pow2_le(1, d);
        if x.0 == 0 {
            assert(c.0 == 0);
        } else {
            assert(c.0 >= pow2(52) * 2) by (nonlinear_arith)
                requires
                    c.0 == x.0 * pow2(d),
                    x.0 >= pow2(52),
                    pow2(d) >= 2,
            ;
            assert(c.1 < c.0);
        }
    }
}

proof fn lemma_pow2_values()
    ensures
        pow2(52) == 0x10_0000_0000_0000,
        pow2(53) == 0x20_0000_0000_0000,
        pow2(64) == 0x1_0000_0000_0000_0000,
        pow2(65) == 0x2_0000_0000_0000_0000,
        pow2(128) == 0x1_0000_0000_0000_0000_0000_0000_0000_0000,
{
    lemma2_to64();
    lemma2_to64_rest();
    lemma_pow2_unfold(65);
    lemma_pow2_adds(64, 64);
}

/// A number lies between the powers of two its binary length gives.
proof fn lemma_bit_len(n: nat)
    ensures
        n < pow2(bit_len(n)),
        n > 0 ==> pow2((bit_len(n) - 1) as nat) <= n,
    decreases n,
{
    lemma2_to64();
    if n > 0 {
        lemma_bit_len(n / 2);
        lemma_pow2_unfold(bit_len(n));
        if n / 2 > 0 {
            lemma_pow2_unfold((bit_len(n) - 1) as nat);
        }
    }
}

/// Below `2^j`, a number has at most `j` binary digits.
proof fn lemma_bit_len_at_most(n: nat, j: nat)
    requires
        n < pow2(j),
    ensures
        bit_len(n) <= j,
{
    lemma_bit_len(n);
    if bit_len(n) > j {
        if j < (bit_len(n) - 1) as nat {
            lemma_pow2_strictly_increases(j, (bit_len(n) - 1) as nat);
        }
    }
}

proof fn lemma_pow2_le(e1: nat, e2: nat)
    requires
        e1 <= e2,
    ensures
        pow2(e1) <= pow2(e2),
{
    if e1 < e2 {
        lemma_pow2_strictly_increases(e1, e2);
    }
}

/// At or above the first binade candidate, the scaled quotient is below `2^53`.
proof fn lemma_scaled_below(num: nat, den: nat, k: int)
    requires
        num > 0,
        den > 0,
        k >= bit_len(num) - bit_len(den) - 52,
    ensures
        scaled_pair(num, den, k).0 < pow2(53) * scaled_pair(num, den, k).1,
{
    lemma_bit_len(num);
    lemma_bit_len(den);
    let bn = bit_len(num);
    let bd = bit_len(den);
    let lo = pow2((bd - 1) as nat);
    if k >= 0 {
        let p = pow2(k as nat);
        lemma_pow2_adds(53, (bd - 1) as nat);
        lemma_pow2_adds((53 + bd - 1) as nat, k as nat);
        lemma_pow2_le(bn, (53 + bd - 1 + k) as nat);
        assert(pow2(53) * den * p >= pow2(53) * lo * p) by (nonlinear_arith)
            requires
                den >= lo,
        ;
        assert(pow2(53) * (den * p) == pow2(53) * den * p) by (nonlinear_arith);
    } else {
        let p = pow2((-k) as nat);
        lemma_pow2_pos((-k) as nat);
        lemma_pow2_adds(bn, (-k) as nat);
        lemma_pow2_adds(53, (bd - 1) as nat);
        lemma_pow2_le((bn - k) as nat, (53 + bd - 1) as nat);
        assert(num * p < pow2(bn) * p) by (nonlinear_arith)
            requires
                num < pow2(bn),
                p > 0,
        ;
        assert(pow2(53) * den >= pow2(53) * lo) by (nonlinear_arith)
            requires
                den >= lo,
        ;
    }
}

/// Below the first binade candidate, the scaled quotient exceeds `2^52`.
proof fn lemma_scaled_above(num: nat, den: nat, k: int)
    requires
        num > 0,
        den > 0,
        k <= bit_len(num) - bit_len(den) - 53,
    ensures
        scaled_pair(num, den, k).0 > pow2(52) * scaled_pair(num, den, k).1,
{
    lemma_bit_len(num);
    lemma_bit_len(den);
    let bn = bit_len(num);
    let bd = bit_len(den);
    let lo = pow2((bn - 1) as nat);
    if k >= 0 {
        let p = pow2(k as nat);
        lemma_pow2_pos(k as nat);
        lemma_pow2_pos(52);
        lemma_pow2_adds(52, bd);
        lemma_pow2_adds((52 + bd) as nat, k as nat);
        lemma_pow2_le((52 + bd + k) as nat, (bn - 1) as nat);
        assert(pow2(52) * den * p < pow2(52) * pow2(bd) * p) by (nonlinear_arith)
            requires
                den < pow2(bd),
                p > 0,
                pow2(52) > 0,
        ;
        assert(pow2(52) * (den * p) == pow2(52) * den * p) by (nonlinear_arith);
    } else {
        let p = pow2((-k) as nat);
        lemma_pow2_adds((bn - 1) as nat, (-k) as nat);
        lemma_pow2_adds(52, bd);
        lemma_pow2_le((52 + bd) as nat, (bn - 1 - k) as nat);
        assert(num * p >= lo * p) by (nonlinear_arith)
            requires
                num >= lo,
        ;
        lemma_pow2_pos(52);
        assert(pow2(52) * den < pow2(52) * pow2(bd)) by (nonlinear_arith)
            requires
                den < pow2(bd),
                pow2(52) > 0,
        ;
    }
}

/// One binade lower, the scaled quotient doubles.
proof fn lemma_scaled_step(num: nat, den: nat, k: int)
    ensures
        scaled_pair(num, den, k - 1).0 * scaled_pair(num, den, k).1 == 2 * scaled_pair(num, den, k).0
            * scaled_pair(num, den, k - 1).1,
{
    if k >= 1 {
        lemma_pow2_unfold(k as nat);
        assert(num * (den * pow2(k as nat)) == 2 * num * (den * pow2((k - 1) as nat))) by (nonlinear_arith)
            requires
                pow2(k as nat) == 2 * pow2((k - 1) as nat),
        ;
    } else if k == 0 {
        lemma2_to64();
    } else {
        lemma_pow2_unfold((1 - k) as nat);
        assert(num * pow2((1 - k) as nat) * den == 2 * (num * pow2((-k) as nat)) * den) by (nonlinear_arith)
            requires
                pow2((1 - k) as nat) == 2 * pow2((-k) as nat),
        ;
    }
}

/// The double nearest to a positive quotient is normal: its mantissa has
/// exactly 53 binary digits, so doubles compare by exponent, then mantissa.
pub proof fn lemma_nearest_double_normal(num: nat, den: nat)
    requires
        num > 0,
        den > 0,
    ensures
        pow2(52) <= nearest_double(num, den).0 < pow2(53),
{
    lemma_pow2_values();
    let k0 = bit_len(num) - bit_len(den) - 52;
    let p0 = scaled_pair(num, den, k0);
    let k = binade(num, den);
    let p = scaled_pair(num, den, k);
    lemma_scaled_below(num, den, k0);
    lemma_scaled_above(num, den, k0 - 1);
    assert(p0.1 > 0 && p.1 > 0) by {
        lemma_pow2_pos(if k0 >= 0 { k0 as nat } else { 0 });
        if k0 >= 0 {
            assert(den * pow2(k0 as nat) > 0) by (nonlinear_arith)
                requires
                    den > 0,
                    pow2(k0 as nat) > 0,
            ;
        }
        if k0 - 1 >= 0 {
            lemma_pow2_pos((k0 - 1) as nat);
            assert(den * pow2((k0 - 1) as nat) > 0) by (nonlinear_arith)
                requires
                    den > 0,
                    pow2((k0 - 1) as nat) > 0,
            ;
        }
    }
    if p0.0 / p0.1 >= pow2(52) {
        assert(k == k0);
        assert(p.0 >= pow2(52) * p.1) by (nonlinear_arith)
            requires
                p.0 / p.1 >= pow2(52),
                p.1 > 0,
        ;
    } else {
        assert(k == k0 - 1);
        lemma_scaled_step(num, den, k0);
        assert(p0.0 < pow2(52) * p0.1) by (nonlinear_arith)
            requires
                p0.0 / p0.1 < pow2(52),
                p0.1 > 0,
        ;
        assert(p.0 < pow2(53) * p.1) by (nonlinear_arith)
            requires
                p.0 * p0.1 == 2 * p0.0 * p.1,
                p0.0 < pow2(52) * p0.1,
                pow2(53) == 2 * pow2(52),
                p0.1 > 0,
                p.1 > 0,
        ;
    }
    let f = p.0 / p.1;
    assert(pow2(52) <= f < pow2(53)) by (nonlinear_arith)
        requires
            f == p.0 / p.1,
            pow2(52) * p.1 <= p.0 < pow2(53) * p.1,
            p.1 > 0,
    ;
}

/// A positive counter is a positive double.
proof fn lemma_u64_as_double_positive(a: u64)
    requires
        a > 0,
    ensures
        u64_as_double(a) > 0,
{
    lemma_pow2_values();
    if a as nat >= pow2(53) {
        let bl = bit_len(a as nat);
        lemma_bit_len(a as nat);
        if bl <= 53 {
            lemma_pow2_le(bl, 53);
        }
        let s = (bl - 53) as nat;
        let y = pow2(s);
        lemma_pow2_pos(s);
        lemma_pow2_adds(s, 52);
        lemma_pow2_le(s, (bl - 1) as nat);
        assert(pow2((bl - 1) as nat) == y * pow2(52));
        assert(y <= pow2((bl - 1) as nat)) by (nonlinear_arith)
            requires
                pow2((bl - 1) as nat) == y * pow2(52),
                pow2(52) >= 1,
        ;
        let f = (a as nat) / y;
        assert(f >= 1) by (nonlinear_arith)
            requires
                f == (a as nat) / y,
                y <= a,
                y > 0,
        ;
        let m = round_half_even(a as nat, y);
        assert(m * y >= y) by (nonlinear_arith)
            requires
                m >= f,
                f >= 1,
                y > 0,
        ;
    }
}

/// The double `a as f64 / t as f64` is zero or normal.
pub proof fn lemma_quotient_double_normal(a: u64, t: u64)
    requires
        t > 0,
    ensures
        is_normal_or_zero(quotient_double(a, t)),
        quotient_double(a, t).0 == 0 <==> a == 0,
{
    lemma_pow2_values();
    lemma_u64_as_double_positive(t);
    if a > 0 {
        lemma_u64_as_double_positive(a);
        lemma_nearest_double_normal(u64_as_double(a), u64_as_double(t));
    } else {
        assert(u64_as_double(a) == 0);
    }
}

/// `2^e` for `e < 128`.
fn pow2_u128(e: u32) -> (r: u128)
    requires
        e < 128,
    ensures
        r == pow2(e as nat),
{
    proof {
        lemma2_to64();
    }
    let mut r: u128 = 1;
    let mut i: u32 = 0;
    while i < e
        invariant
            i <= e < 128,
            r == pow2(i as nat),
        decreases e - i,
    {
        proof {
            lemma_pow2_unfold((i + 1) as nat);
            lemma_pow2_strictly_increases((i + 1) as nat, 128);
            lemma_pow2_values();
        }
        r = r * 2;
        i = i + 1;
    }
    r
}

/// The number of binary digits of `n`.
fn bit_len_u128(n: u128) -> (r: u32)
    ensures
        r == bit_len(n as nat),
        r <= 128,
{
    proof {
        lemma_pow2_values();
        lemma_bit_len_at_most(n as nat, 128);
    }
    let mut x: u128 = n;
    let mut c: u32 = 0;
    while x > 0
        invariant
            bit_len(n as nat) == c + bit_len(x as nat),
            bit_len(n as nat) <= 128,
        decreases x,
    {
        x = x / 2;
        c = c + 1;
    }
    c
}

/// `x / y` rounded to the nearest integer, ties to even.
fn round_half_even_u128(x: u128, y: u128) -> (r: u128)
    requires
        y > 0,
        y < 0x4000_0000_0000_0000_0000_0000_0000_0000,
    ensures
        r == round_half_even(x as nat, y as nat),
{
    let f = x / y;
    let r = x % y;
    proof {
    }
    if 2 * r > y || (2 * r == y && f % 2 == 1) {
        proof {
            assert(f < 0xffff_ffff_ffff_ffff_ffff_ffff_ffff_ffff) by (nonlinear_arith)
                requires
                    f == x / y,
                    r == x % y,
                    y > 0,
                    2 * r >= y,
                    x <= 0xffff_ffff_ffff_ffff_ffff_ffff_ffff_ffff,
            ;
        }
        f + 1
    } else {
        f
    }
}

/// `scaled_pair(num, den, k)` for a `k` one of the two binade candidates.
fn scaled_pair_u128(num: u128, den: u128, k: i32, bn: u32, bd: u32) -> (r: (u128, u128))
    requires
        0 < num < pow2(65),
        0 < den < pow2(65),
        bn == bit_len(num as nat),
        bd == bit_len(den as nat),
        1 <= bn <= 65,
        1 <= bd <= 65,
        bn - bd - 53 <= k <= bn - bd - 52,
    ensures
        r.0 == scaled_pair(num as nat, den as nat, k as int).0,
        r.1 == scaled_pair(num as nat, den as nat, k as int).1,
        0 < r.1 < pow2(65),
        r.0 < pow2(118),
{
    proof {
        lemma_pow2_values();
        lemma_bit_len(num as nat);
        lemma_bit_len(den as nat);
    }
    if k >= 0 {
        let ku: u32 = k as u32;
        let p = pow2_u128(ku);
        proof {
            lemma_pow2_adds(bd as nat, ku as nat);
            lemma_pow2_pos(ku as nat);
            assert(den * p < pow2(bd as nat) * p) by (nonlinear_arith)
                requires
                    den < pow2(bd as nat),
                    p > 0,
            ;
            assert(bd + ku <= 13);
            lemma_pow2_strictly_increases((bd + ku) as nat, 65);
            lemma_pow2_strictly_increases(65, 118);
            assert(pow2(bd as nat) * p == pow2((bd + ku) as nat));
            assert(den * p > 0) by (nonlinear_arith)
                requires
                    den > 0,
                    p > 0,
            ;
        }
        (num, den * p)
    } else {
        let s: u32 = (-k) as u32;
        proof {
            assert(s <= 117);
        }
        let p = pow2_u128(s);
        proof {
            lemma_pow2_adds(bn as nat, s as nat);
            lemma_pow2_pos(s as nat);
            assert(num * p < pow2(bn as nat) * p) by (nonlinear_arith)
                requires
                    num < pow2(bn as nat),
                    p > 0,
            ;
            if bn + s < 118 {
                lemma_pow2_strictly_increases((bn + s) as nat, 118);
            }
            lemma_pow2_strictly_increases(118, 128);
            assert(pow2((bn + s) as nat) <= pow2(118));
        }
        (num * p, den)
    }
}

/// The double nearest to `num / den`, as `(m, k)`.
fn nearest_double_u128(num: u128, den: u128) -> (r: (u128, i32))
    requires
        num < pow2(65),
        0 < den < pow2(65),
    ensures
        r.0 == nearest_double(num as nat, den as nat).0,
        r.1 == nearest_double(num as nat, den as nat).1,
{
    proof {
        lemma_pow2_values();
    }
    if num == 0 {
        return (0, 0);
    }
    let bn = bit_len_u128(num);
    let bd = bit_len_u128(den);
    proof {
        lemma_bit_len(num as nat);
        lemma_bit_len(den as nat);
        lemma_bit_len_at_most(num as nat, 65);
        lemma_bit_len_at_most(den as nat, 65);
        if bn == 0 {
            assert(pow2(0) == 1) by {
                lemma2_to64();
            }
        }
        if bd == 0 {
            assert(pow2(0) == 1) by {
                lemma2_to64();
            }
        }
    }
    let k0: i32 = bn as i32 - bd as i32 - 52;
    let p0 = scaled_pair_u128(num, den, k0, bn, bd);
    let k: i32 = if p0.0 / p0.1 >= 0x10_0000_0000_0000 {
        k0
    } else {
        k0 - 1
    };
    let p = scaled_pair_u128(num, den, k, bn, bd);
    proof {
        lemma_pow2_strictly_increases(65, 126);
        assert(pow2(126) == 0x4000_0000_0000_0000_0000_0000_0000_0000) by {
            lemma_pow2_adds(64, 62);
            lemma2_to64();
            lemma2_to64_rest();
        }
    }
    let m = round_half_even_u128(p.0, p.1);
    if m == 0x20_0000_0000_0000 {
        (0x10_0000_0000_0000, k + 1)
    } else {
        (m, k)
    }
}

/// The value of `a as f64`.
fn u64_as_double_u128(a: u64) -> (r: u128)
    ensures
        r == u64_as_double(a),
        a > 0 ==> r > 0,
        r < pow2(65),
{
    proof {
        lemma_pow2_values();
    }
    if a < 0x20_0000_0000_0000 {
        return a as u128;
    }
    let bl = bit_len_u128(a as u128);
    proof {
        lemma_bit_len(a as nat);
        lemma_bit_len_at_most(a as nat, 64);
        if bl <= 53 {
            if bl < 53 {
                lemma_pow2_strictly_increases(bl as nat, 53);
            }
        }
    }
    let s: u32 = bl - 53;
    let y = pow2_u128(s);
    proof {
        lemma_pow2_adds(s as nat, 52);
        lemma_pow2_strictly_increases(s as nat, 12);
        lemma2_to64();
        assert(y <= a) by {
            assert(pow2((bl - 1) as nat) == pow2(s as nat) * pow2(52));
        }
    }
    let m = round_half_even_u128(a as u128, y);
    proof {
        let f = (a as nat) / (y as nat);
        assert(m <= f + 1);
        assert(f >= 1) by (nonlinear_arith)
            requires
                f == (a as nat) / (y as nat),
                y <= a,
                y > 0,
        ;
        assert(m * y <= a + y) by (nonlinear_arith)
            requires
                f == (a as nat) / (y as nat),
                m <= f + 1,
                y > 0,
        ;
        assert(m * y >= y) by (nonlinear_arith)
            requires
                m >= f,
                f >= 1,
                y > 0,
        ;
    }
    m * y
}

/// The double `a as f64 / t as f64`, as `(m, k)`.
pub fn quotient_double_of(a: u64, t: u64) -> (r: (u128, i32))
    requires
        t > 0,
    ensures
        r.0 == quotient_double(a, t).0,
        r.1 == quotient_double(a, t).1,
{
    let num = u64_as_double_u128(a);
    let den = u64_as_double_u128(t);
    nearest_double_u128(num, den)
}

/// Whether `x` and `y` are the same double.
pub fn same_double_of(x: (u128, i32), y: (u128, i32)) -> (r: bool)
    ensures
        r == same_double((x.0 as nat, x.1 as int), (y.0 as nat, y.1 as int)),
{
    (x.0 == 0 && y.0 == 0) || (x.0 == y.0 && x.1 == y.1)
}

/// Whether the double `x` is below the double `y`.
pub fn double_less(x: (u128, i32), y: (u128, i32)) -> (r: bool)
    ensures
        r == double_lt((x.0 as nat, x.1 as int), (y.0 as nat, y.1 as int)),
{
    y.0 != 0 && (x.0 == 0 || x.1 < y.1 || (x.1 == y.1 && x.0 < y.0))
}

} // verus!
