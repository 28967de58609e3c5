//! Arithmetic of the prime field with `2^31 - 1` elements.
//!
//! A field element is handled as its canonical representative: the unique
//! `u32` below [`MODULUS`]. The arithmetic itself is done by `p3_mersenne_31`.

use p3_field::PrimeField32;
use p3_mersenne_31::Mersenne31;
use vstd::arithmetic::div_mod::{
    lemma_fundamental_div_mod, lemma_mod_bound, lemma_mod_multiples_basic, lemma_small_mod,
};
use vstd::arithmetic::mul::lemma_mul_is_commutative;
use vstd::prelude::*;

verus! {

/// The number of elements of the field, `2^31 - 1`.
pub const MODULUS: u32 = 2147483647;

/// Whether `v` is the canonical representative of a field element.
pub open spec fn is_canonical(v: u32) -> bool {
    v < MODULUS
}

/// Whether every entry of `s` is a canonical representative.
pub open spec fn all_canonical(s: Seq<u32>) -> bool {
    forall|i: int| 0 <= i < s.len() ==> is_canonical(#[trigger] s[i])
}

/// The canonical representative of the sum of the elements that `a` and `b` represent.
pub open spec fn field_add(a: int, b: int) -> int {
    (a + b) % (MODULUS as int)
}

/// The canonical representative of the difference of the elements that `a` and `b` represent.
pub open spec fn field_sub(a: int, b: int) -> int {
    (a - b) % (MODULUS as int)
}

/// The canonical representative of the product of the elements that `a` and `b` represent.
pub open spec fn field_mul(a: int, b: int) -> int {
    (a * b) % (MODULUS as int)
}

/// Two field elements are equal exactly where their difference is zero.
pub proof fn lemma_difference_is_zero_iff_equal(a: int, b: int)
    requires
        0 <= a < MODULUS,
        0 <= b < MODULUS,
    ensures
        field_sub(a, b) == 0 <==> a == b,
{
    let p = MODULUS as int;
    lemma_fundamental_div_mod(a - b, p);
    lemma_mod_bound(a - b, p);
    if (a - b) % p == 0 {
        // A multiple of the modulus strictly between its negative and itself is zero.
        assert((a - b) / p == 0);
    }
    if a == b {
        lemma_small_mod(0, p as nat);
    }
}

/// The sum, the difference and the product in the field are canonical representatives.
pub proof fn lemma_field_results_are_canonical(a: int, b: int)
    ensures
        0 <= field_add(a, b) < MODULUS,
        0 <= field_sub(a, b) < MODULUS,
        0 <= field_mul(a, b) < MODULUS,
{
    lemma_mod_bound(a + b, MODULUS as int);
    lemma_mod_bound(a - b, MODULUS as int);
    lemma_mod_bound(a * b, MODULUS as int);
}

/// No product of a number between 2 and 46340 with a number below the
/// modulus is the modulus.
#[verifier::rlimit(100)]
proof fn lemma_no_small_factor(d: u64, e: u64)
    requires
        2 <= d <= 46340,
        2 <= e < 2147483647,
    ensures
        d * e != 2147483647,
{
    assert(2 <= d && d <= 46340 && 2 <= e && e < 2147483647 ==> d * e != 2147483647u64)
        by (bit_vector);
}

/// The modulus is prime: no two numbers above one multiply to it.
pub proof fn lemma_modulus_is_prime(d: int, e: int)
    requires
        2 <= d,
        2 <= e,
    ensures
        d * e != MODULUS,
{
    if d * e == MODULUS {
        // Each factor is below the modulus, and one of them is at most its square root.
        assert(d < 2147483647 && e < 2147483647 && (d <= 46340 || e <= 46340))
            by (nonlinear_arith)
            requires
                d * e == 2147483647,
                2 <= d,
                2 <= e,
        ;
        if d <= 46340 {
            lemma_no_small_factor(d as u64, e as u64);
        } else {
            lemma_mul_is_commutative(d, e);
            lemma_no_small_factor(e as u64, d as u64);
        }
    }
}

/// The field has no zero divisors: the product of two elements that are
/// not zero is not zero.
pub proof fn lemma_no_zero_divisors(v: int, w: int)
    requires
        0 < v < MODULUS,
        0 < w < MODULUS,
    ensures
        field_mul(v, w) != 0,
    decreases v,
{
    let p = MODULUS as int;
    if v == 1 {
        lemma_small_mod(w as nat, p as nat);
        assert(v * w == w);
    } else {
        // Divide the modulus by `v`: the remainder, unless it is zero, is a
        // smaller number with the same property.
        let k = p / v;
        let s = p % v;
        lemma_fundamental_div_mod(p, v);
        lemma_mod_bound(p, v);
        if s == 0 {
            assert(k >= 2) by (nonlinear_arith)
                requires
                    p == v * k,
                    2 <= v < p,
            ;
            lemma_modulus_is_prime(v, k);
        } else {
            lemma_no_zero_divisors(s, w);
            if (v * w) % p == 0 {
                let m = (v * w) / p;
                lemma_fundamental_div_mod(v * w, p);
                assert(s * w == (w - k * m) * p) by (nonlinear_arith)
                    requires
                        p == v * k + s,
                        v * w == p * m,
                ;
                lemma_mod_multiples_basic(w - k * m, p);
            }
        }
    }
}

/// An element whose product with itself less one is zero is zero or one,
/// and only such an element.
pub proof fn lemma_boolean_values(v: int)
    requires
        0 <= v < MODULUS,
    ensures
        field_mul(v, field_sub(v, 1)) == 0 <==> (v == 0 || v == 1),
{
    let p = MODULUS as int;
    if v == 0 {
        assert(v * field_sub(v, 1) == 0);
        lemma_small_mod(0, p as nat);
    } else {
        lemma_small_mod((v - 1) as nat, p as nat);
        if v == 1 {
            assert(v * 0 == 0);
            lemma_small_mod(0, p as nat);
        } else {
            lemma_no_zero_divisors(v, v - 1);
        }
    }
}

/// Decides whether every entry of `cells` is a canonical representative.
pub fn check_canonical(cells: &[u32]) -> (ok: bool)
    ensures
        ok == all_canonical(cells@),
{
    let mut i: usize = 0;
    while i < cells.len()
        invariant
            i <= cells@.len(),
            forall|k: int| 0 <= k < i ==> #[trigger] cells@[k] < MODULUS,
        decreases cells@.len() - i,
    {
        if cells[i] >= MODULUS {
            return false;
        }
        i += 1;
    }
    true
}

/// Adds two field elements with `Mersenne31`'s `Add`.
///
/// Trusted: for canonical `a` and `b`, `Mersenne31::new` keeps them unchanged,
/// the sum is reduced modulo `2^31 - 1`, and `as_canonical_u32` returns the
/// representative below the modulus.
#[verifier::external_body]
pub(crate) fn m31_add(a: u32, b: u32) -> (r: u32)
    requires
        is_canonical(a),
        is_canonical(b),
    ensures
        r == field_add(a as int, b as int),
{
    (Mersenne31::new(a) + Mersenne31::new(b)).as_canonical_u32()
}

/// Subtracts two field elements with `Mersenne31`'s `Sub`.
///
/// Trusted: for canonical `a` and `b` the result is the representative below
/// the modulus of `a - b` modulo `2^31 - 1`.
#[verifier::external_body]
pub(crate) fn m31_sub(a: u32, b: u32) -> (r: u32)
    requires
        is_canonical(a),
        is_canonical(b),
    ensures
        r == field_sub(a as int, b as int),
{
    (Mersenne31::new(a) - Mersenne31::new(b)).as_canonical_u32()
}

/// Multiplies two field elements with `Mersenne31`'s `Mul`.
///
/// Trusted: for canonical `a` and `b` the result is the representative below
/// the modulus of `a * b` modulo `2^31 - 1`.
#[verifier::external_body]
pub(crate) fn m31_mul(a: u32, b: u32) -> (r: u32)
    requires
        is_canonical(a),
        is_canonical(b),
    ensures
        r == field_mul(a as int, b as int),
{
    (Mersenne31::new(a) * Mersenne31::new(b)).as_canonical_u32()
}

} // verus!
