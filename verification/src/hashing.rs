//! Deterministic 64-bit hashing used to derive synthetic values from names
//! and steps.

use vstd::prelude::*;

use crate::leaks::{fnv1a, simple_hash};

verus! {

/// `x * c` modulo 2^64.
pub open spec fn wrapping_mul64(x: u64, c: u64) -> u64 {
    ((x as nat * c as nat) % 0x1_0000_0000_0000_0000) as u64
}

/// The 64-bit finaliser of MurmurHash3.
pub open spec fn mix64_spec(x: u64) -> u64 {
    let a = x ^ (x >> 33u64);
    let b = wrapping_mul64(a, 0xff51afd7ed558ccd);
    let c = b ^ (b >> 33u64);
    let d = wrapping_mul64(c, 0xc4ceb9fe1a85ec53);
    d ^ (d >> 33u64)
}

/// The hash of a sequence of words: each word is mixed into the state in turn.
pub open spec fn hash64_spec(parts: Seq<u64>) -> u64
    decreases parts.len(),
{
    if parts.len() == 0 {
        0x9e3779b97f4a7c15u64
    } else {
        mix64_spec(hash64_spec(parts.drop_last()) ^ parts.last())
    }
}

/// Mixes the bits of a word (the 64-bit finaliser of MurmurHash3).
pub fn mix64(x: u64) -> (r: u64)
    ensures
        r == mix64_spec(x),
{
    let mut x = x;
    x = x ^ (x >> 33);
    x = x.wrapping_mul(0xff51afd7ed558ccd);
    x = x ^ (x >> 33);
    x = x.wrapping_mul(0xc4ceb9fe1a85ec53);
    x = x ^ (x >> 33);
    x
}

/// The hash of a sequence of words.
pub fn hash64(parts: &[u64]) -> (r: u64)
    ensures
        r == hash64_spec(parts@),
{
    let mut h: u64 = 0x9e3779b97f4a7c15;
    let mut i: usize = 0;
    while i < parts.len()
        invariant
            i <= parts@.len(),
            h == hash64_spec(parts@.take(i as int)),
        decreases parts@.len() - i,
    {
        proof {
            assert(parts@.take(i + 1).drop_last() =~= parts@.take(i as int));
        }
        h = mix64(h ^ parts[i]);
        i = i + 1;
    }
    assert(parts@.take(parts@.len() as int) =~= parts@);
    h
}

/// The 64-bit FNV-1a hash of the UTF-8 bytes of a text.
pub fn str_hash64(s: &str) -> (r: u64)
    ensures
        r == fnv1a(vstd::utf8::encode_utf8(s@)),
{
    simple_hash(s)
}


/// Undoes `x ^ (x >> 33)`: the same step applied again.
proof fn lemma_xorshift33_undone(x: u64)
    ensures
        (x ^ (x >> 33u64)) ^ ((x ^ (x >> 33u64)) >> 33u64) == x,
{
    assert((x ^ (x >> 33u64)) ^ ((x ^ (x >> 33u64)) >> 33u64) == x) by (bit_vector);
}

/// Multiplying by an odd constant modulo 2^64 is undone by multiplying by
/// its inverse.
proof fn lemma_mul_undone(x: u64, c: u64, ci: u64)
    requires
        (c as nat * ci as nat) % 0x1_0000_0000_0000_0000 == 1,
    ensures
        wrapping_mul64(wrapping_mul64(x, c), ci) == x,
{
    let m: int = 0x1_0000_0000_0000_0000;
    let (xi, ci_, cii) = (x as int, c as int, ci as int);
    vstd::arithmetic::div_mod::lemma_mul_mod_noop_left(xi * ci_, cii, m);
    vstd::arithmetic::mul::lemma_mul_is_associative(xi, ci_, cii);
    vstd::arithmetic::div_mod::lemma_mul_mod_noop_right(xi, ci_ * cii, m);
    vstd::arithmetic::div_mod::lemma_small_mod(xi as nat, m as nat);
    assert(wrapping_mul64(x, c) as int == (xi * ci_) % m);
}

/// The inverse of the finaliser.
pub open spec fn unmix64_spec(x: u64) -> u64 {
    let d = x ^ (x >> 33u64);
    let c = wrapping_mul64(d, 0x9cb4b2f8129337db);
    let b = c ^ (c >> 33u64);
    let a = wrapping_mul64(b, 0x4f74430c22a54005);
    a ^ (a >> 33u64)
}

/// Mixing loses nothing: the finaliser is undone by `unmix64_spec`, so two
/// different words never mix to the same value; zero mixes to zero.
pub proof fn lemma_mix64_injective(a: u64, b: u64)
    ensures
        unmix64_spec(mix64_spec(a)) == a,
        mix64_spec(a) == mix64_spec(b) ==> a == b,
        mix64_spec(0) == 0,
{
    lemma_mix64_undone(a);
    lemma_mix64_undone(b);
    assert(0u64 >> 33u64 == 0u64) by (bit_vector);
    assert(0u64 ^ 0u64 == 0u64) by (bit_vector);
    assert(wrapping_mul64(0, 0xff51afd7ed558ccd) == 0);
    assert(wrapping_mul64(0, 0xc4ceb9fe1a85ec53) == 0);
}

proof fn lemma_mix64_undone(x: u64)
    ensures
        unmix64_spec(mix64_spec(x)) == x,
{
    let a = x ^ (x >> 33u64);
    let b = wrapping_mul64(a, 0xff51afd7ed558ccd);
    let c = b ^ (b >> 33u64);
    let d = wrapping_mul64(c, 0xc4ceb9fe1a85ec53);
    let e = d ^ (d >> 33u64);
    assert(0xc4ceb9fe1a85ec53nat * 0x9cb4b2f8129337dbnat % 0x1_0000_0000_0000_0000nat == 1);
    assert(0xff51afd7ed558ccdnat * 0x4f74430c22a54005nat % 0x1_0000_0000_0000_0000nat == 1);
    lemma_xorshift33_undone(d);
    lemma_mul_undone(c, 0xc4ceb9fe1a85ec53, 0x9cb4b2f8129337db);
    lemma_xorshift33_undone(b);
    lemma_mul_undone(a, 0xff51afd7ed558ccd, 0x4f74430c22a54005);
    lemma_xorshift33_undone(x);
}

} // verus!
