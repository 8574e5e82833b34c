use vstd::prelude::*;

use crate::text::{append_chars, append_vec, dec, dec_chars, string_of, zero_pad, zero_pad_vec};

verus! {

/// 2 to the power `e`.
pub open spec fn p2(e: nat) -> nat
    decreases e,
{
    if e == 0 {
        1
    } else {
        2 * p2((e - 1) as nat)
    }
}

/// 10 to the power `e`.
pub open spec fn p10(e: nat) -> nat
    decreases e,
{
    if e == 0 {
        1
    } else {
        10 * p10((e - 1) as nat)
    }
}

/// The number of bits of `n` (0 for 0).
pub open spec fn bit_len(n: nat) -> nat
    decreases n,
{
    if n == 0 {
        0
    } else {
        1 + bit_len(n / 2)
    }
}

/// `n / d` rounded to the nearest integer, ties to the even one.
pub open spec fn div_round_even(n: nat, d: nat) -> nat
    recommends
        d > 0,
{
    let q = n / d;
    let r = n % d;
    if 2 * r > d || (2 * r == d && q % 2 == 1) {
        q + 1
    } else {
        q
    }
}

/// The value of `n` as a double: `n` rounded to 53 significant bits, ties to even.
pub open spec fn double_of_nat(n: nat) -> nat {
    if bit_len(n) <= 53 {
        n
    } else {
        let s = (bit_len(n) - 53) as nat;
        div_round_even(n, p2(s)) * p2(s)
    }
}

/// The decimal text of `num / 2^shift` with `prec` digits after the point,
/// the last one rounded half to even, as Rust formats a double with `{:.prec$}`.
pub open spec fn fixed_text(num: nat, shift: nat, prec: nat) -> Seq<char> {
    let scaled = div_round_even(num * p10(prec), p2(shift));
    dec(scaled / p10(prec)) + "."@ + zero_pad(dec(scaled % p10(prec)), prec)
}

/// The text of `format_bytes`.
pub open spec fn bytes_text(bytes: u64) -> Seq<char> {
    let b = double_of_nat(bytes as nat);
    if b >= p2(30) {
        fixed_text(b, 30, 2) + " GB"@
    } else if b >= p2(20) {
        fixed_text(b, 20, 1) + " MB"@
    } else if b >= p2(10) {
        fixed_text(b, 10, 1) + " KB"@
    } else {
        dec(bytes as nat) + " B"@
    }
}

proof fn lemma_p2_is_pow2(e: nat)
    ensures
        p2(e) == vstd::arithmetic::power2::pow2(e),
    decreases e,
{
    if e > 0 {
        lemma_p2_is_pow2((e - 1) as nat);
        vstd::arithmetic::power2::lemma_pow2_unfold(e);
    } else {
        vstd::arithmetic::power2::lemma2_to64();
    }
}

/// The powers of two that the formatting code uses.
proof fn lemma_p2_values()
    ensures
        p2(10) == 0x400,
        p2(11) == 0x800,
        p2(12) == 0x1000,
        p2(20) == 0x10_0000,
        p2(30) == 0x4000_0000,
        p2(64) == 0x1_0000_0000_0000_0000,
{
    vstd::arithmetic::power2::lemma2_to64();
    lemma_p2_is_pow2(10);
    lemma_p2_is_pow2(11);
    lemma_p2_is_pow2(12);
    lemma_p2_is_pow2(20);
    lemma_p2_is_pow2(30);
    lemma_p2_is_pow2(64);
}

proof fn lemma_p10_values()
    ensures
        p10(1) == 10,
        p10(2) == 100,
{
    assert(p10(0) == 1);
    assert(p10(1) == 10);
}

proof fn lemma_p2_pos(e: nat)
    ensures
        p2(e) >= 1,
    decreases e,
{
    if e > 0 {
        lemma_p2_pos((e - 1) as nat);
    }
}

proof fn lemma_p2_add(a: nat, b: nat)
    ensures
        p2(a + b) == p2(a) * p2(b),
{
    lemma_p2_is_pow2(a);
    lemma_p2_is_pow2(b);
    lemma_p2_is_pow2(a + b);
    vstd::arithmetic::power2::lemma_pow2_adds(a, b);
}

proof fn lemma_bit_len_bound(n: nat)
    ensures
        n < p2(bit_len(n)),
        n > 0 ==> p2((bit_len(n) - 1) as nat) <= n,
    decreases n,
{
    if n > 0 {
        lemma_bit_len_bound(n / 2);
        if n / 2 > 0 {
            assert(p2((bit_len(n / 2) - 1) as nat) <= n / 2);
        }
    }
}

/// The rounded value of a 64-bit count as the double that holds it.
pub fn double_value_of(n: u64) -> (r: u128)
    ensures
        r as nat == double_of_nat(n as nat),
        r <= 0x1_0000_0000_0000_0000u128,
{
    // the bit length of n
    let mut bl: u64 = 0;
    let mut m: u64 = n;
    assert(p2(0) == 1);
    while m > 0
        invariant
            bit_len(n as nat) == bl + bit_len(m as nat),
            bl <= 64,
            m as nat * p2(bl as nat) <= n,
            n < (m as nat + 1) * p2(bl as nat),
        decreases m,
    {
        proof {
            assert(p2((bl + 1) as nat) == 2 * p2(bl as nat));
            assert((m / 2) as nat * p2((bl + 1) as nat) <= n) by (nonlinear_arith)
                requires
                    m as nat * p2(bl as nat) <= n,
                    p2((bl + 1) as nat) == 2 * p2(bl as nat),
            ;
            assert(n < ((m / 2) as nat + 1) * p2((bl + 1) as nat)) by (nonlinear_arith)
                requires
                    n < (m as nat + 1) * p2(bl as nat),
                    p2((bl + 1) as nat) == 2 * p2(bl as nat),
                    p2(bl as nat) >= 1,
            ;
            lemma_p2_pos(bl as nat);
            if bl >= 64 {
                lemma_p2_add(64, (bl - 64) as nat);
                lemma_p2_values();
                lemma_p2_pos((bl - 64) as nat);
                assert(m as nat * p2(bl as nat) >= 0x1_0000_0000_0000_0000) by (nonlinear_arith)
                    requires
                        m >= 1,
                        p2(bl as nat) == p2(64) * p2((bl - 64) as nat),
                        p2(64) == 0x1_0000_0000_0000_0000,
                        p2((bl - 64) as nat) >= 1,
                ;
            }
        }
        bl = bl + 1;
        m = m / 2;
    }
    if bl <= 53 {
        return n as u128;
    }
    let s = bl - 53;
    let mut p: u128 = 1;
    let mut i: u64 = 0;
    while i < s
        invariant
            i <= s <= 11,
            p as nat == p2(i as nat),
            1 <= p <= 0x800,
        decreases s - i,
    {
        proof {
            assert(p2((i + 1) as nat) == 2 * p2(i as nat));
            lemma_p2_mono((i + 1) as nat, 11);
            lemma_p2_values();
        }
        p = p * 2;
        i = i + 1;
    }
    let nn = n as u128;
    let q = nn / p;
    let r = nn % p;
    let q2 = if 2 * r > p || (2 * r == p && q % 2 == 1) {
        q + 1
    } else {
        q
    };
    proof {
        lemma_bit_len_bound(n as nat);
        lemma_p2_add(53, s as nat);
        lemma_p2_mono(bl as nat, 64);
        lemma_p2_values();
        let big = p2(53);
        assert(n < big * p);
        assert(q < big) by (nonlinear_arith)
            requires
                q == nn / p,
                p >= 1,
                nn < big * p,
        ;
        assert(q2 * p <= big * p) by (nonlinear_arith)
            requires
                q2 <= q + 1,
                q < big,
                p >= 1,
        ;
    }
    q2 * p
}

proof fn lemma_p2_mono(a: nat, b: nat)
    requires
        a <= b,
    ensures
        p2(a) <= p2(b),
    decreases b,
{
    if a < b {
        lemma_p2_mono(a, (b - 1) as nat);
        lemma_p2_pos((b - 1) as nat);
    }
}

/// `num / 2^shift` with `prec` (1 or 2) digits after the point.
fn fixed_chars(num: u128, shift: u32, prec: u32) -> (r: Vec<char>)
    requires
        num <= 0x1_0000_0000_0000_0000u128,
        10 <= shift <= 30,
        1 <= prec <= 2,
    ensures
        r@ == fixed_text(num as nat, shift as nat, prec as nat),
{
    let mut d: u128 = 1;
    let mut i: u32 = 0;
    while i < shift
        invariant
            i <= shift <= 30,
            d as nat == p2(i as nat),
            d <= 0x4000_0000,
        decreases shift - i,
    {
        proof {
            assert(p2((i + 1) as nat) == 2 * p2(i as nat));
            lemma_p2_mono((i + 1) as nat, 30);
            lemma_p2_values();
        }
        d = d * 2;
        i = i + 1;
    }
    let ten: u128 = if prec == 1 {
        10
    } else {
        100
    };
    proof {
        lemma_p10_values();
        lemma_p2_pos(shift as nat);
    }
    let x = num * ten;
    let q = x / d;
    let r = x % d;
    let scaled = if 2 * r > d || (2 * r == d && q % 2 == 1) {
        q + 1
    } else {
        q
    };
    assert(scaled as nat == div_round_even(num as nat * p10(prec as nat), p2(shift as nat)));
    let int_part = scaled / ten;
    let frac = scaled % ten;
    proof {
        let top: int = 100 * 0x1_0000_0000_0000_0000int;
        lemma_p2_mono(10, shift as nat);
        lemma_p2_values();
        assert(x <= top) by (nonlinear_arith)
            requires
                top == 100 * 0x1_0000_0000_0000_0000int,
                x == num * ten,
                ten <= 100,
                num <= 0x1_0000_0000_0000_0000u128,
        ;
        vstd::arithmetic::div_mod::lemma_div_is_ordered(x as int, top, d as int);
        vstd::arithmetic::div_mod::lemma_div_is_ordered_by_denominator(top, 1024, d as int);
        assert(top / 1024 == 100 * 0x40_0000_0000_0000int);
        vstd::arithmetic::div_mod::lemma_div_is_ordered_by_denominator(scaled as int, 1, ten as int);
    }
    let mut out = dec_chars(int_part as u64);
    append_chars(&mut out, ".");
    let f = dec_chars(frac as u64);
    let fp = zero_pad_vec(&f, prec as usize);
    append_vec(&mut out, &fp);
    out
}

/// A byte count for display: two decimals of GiB at or above 1 GiB, one
/// decimal of MiB or KiB at or above those, else the plain count of bytes.
pub fn format_bytes(bytes: u64) -> (r: String)
    ensures
        r@ == bytes_text(bytes),
{
    let b = double_value_of(bytes);
    proof {
        lemma_p2_values();
    }
    let mut out: Vec<char>;
    if b >= 0x4000_0000 {
        out = fixed_chars(b, 30, 2);
        append_chars(&mut out, " GB");
    } else if b >= 0x10_0000 {
        out = fixed_chars(b, 20, 1);
        append_chars(&mut out, " MB");
    } else if b >= 0x400 {
        out = fixed_chars(b, 10, 1);
        append_chars(&mut out, " KB");
    } else {
        out = dec_chars(bytes);
        append_chars(&mut out, " B");
    }
    string_of(&out)
}

/// The text of `format_elapsed`.
pub open spec fn elapsed_text(secs: u64) -> Seq<char> {
    let h = secs / 3600;
    let m = (secs % 3600) / 60;
    let s = secs % 60;
    if h > 0 {
        dec(h as nat) + "h "@ + dec(m as nat) + "m "@ + dec(s as nat) + "s"@
    } else if m > 0 {
        dec(m as nat) + "m "@ + dec(s as nat) + "s"@
    } else {
        dec(s as nat) + "s"@
    }
}

/// A duration in seconds as hours, minutes and seconds, leading zero units omitted.
pub fn format_elapsed(secs: u64) -> (r: String)
    ensures
        r@ == elapsed_text(secs),
{
    let h = secs / 3600;
    let m = (secs % 3600) / 60;
    let s = secs % 60;
    let mut out: Vec<char> = Vec::new();
    if h > 0 {
        let v = dec_chars(h);
        append_vec(&mut out, &v);
        append_chars(&mut out, "h ");
    }
    if h > 0 || m > 0 {
        let v = dec_chars(m);
        append_vec(&mut out, &v);
        append_chars(&mut out, "m ");
    }
    let v = dec_chars(s);
    append_vec(&mut out, &v);
    append_chars(&mut out, "s");
    proof {
        if h > 0 {
            assert(out@ =~= elapsed_text(secs));
        } else if m > 0 {
            assert(out@ =~= elapsed_text(secs));
        } else {
            assert(out@ =~= elapsed_text(secs));
        }
    }
    string_of(&out)
}

} // verus!
