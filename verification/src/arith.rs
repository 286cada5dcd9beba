//! The field order and the modular operations, as spec-level functions,
//! together with the ring laws they obey.

use vstd::arithmetic::div_mod::{
    lemma_add_mod_noop, lemma_add_mod_noop_right, lemma_mod_bound, lemma_mul_mod_noop_general,
    lemma_mul_mod_noop_left, lemma_mul_mod_noop_right, lemma_small_mod,
};
use vstd::arithmetic::mul::{lemma_mul_is_associative, lemma_mul_is_distributive_add};
use vstd::arithmetic::power::{
    lemma_pow_mod_noop, lemma_pow_multiplies, lemma_square_is_pow2, pow,
};
use vstd::prelude::*;

verus! {

/// The order of the BN254 scalar field: the 254-bit prime
/// 21888242871839275222246405745257275088548364400416034343698204186575808495617,
/// written here from its four big-endian 64-bit limbs.
pub open spec fn p() -> nat {
    (((0x30644E72E131A029 * 0x1_0000_0000_0000_0000 + 0xB85045B68181585D)
        * 0x1_0000_0000_0000_0000 + 0x2833E84879B97091) * 0x1_0000_0000_0000_0000
        + 0x43E1F593F0000001) as nat
}

/// Modular addition of two residues.
pub open spec fn fp_add(a: int, b: int) -> int {
    (a + b) % (p() as int)
}

/// Modular subtraction of two residues.
pub open spec fn fp_sub(a: int, b: int) -> int {
    (a - b) % (p() as int)
}

/// Modular multiplication of two residues.
pub open spec fn fp_mul(a: int, b: int) -> int {
    (a * b) % (p() as int)
}

/// Modular negation of a residue.
pub open spec fn fp_neg(a: int) -> int {
    (-a) % (p() as int)
}

/// Addition is associative: x + (y + z) == (x + y) + z in the field.
pub proof fn lemma_fp_add_associative(x: int, y: int, z: int)
    ensures
        fp_add(x, fp_add(y, z)) == fp_add(fp_add(x, y), z),
{
    let q = p() as int;
    lemma_add_mod_noop_right(x, y + z, q);
    lemma_add_mod_noop_right(z, x + y, q);
    assert(fp_add(x, fp_add(y, z)) == (x + y + z) % q);
    assert(fp_add(fp_add(x, y), z) == (x + y + z) % q);
}

/// Multiplication is associative: x * (y * z) == (x * y) * z in the field.
pub proof fn lemma_fp_mul_associative(x: int, y: int, z: int)
    ensures
        fp_mul(x, fp_mul(y, z)) == fp_mul(fp_mul(x, y), z),
{
    let q = p() as int;
    lemma_mul_mod_noop_general(x, y * z, q);
    lemma_mul_mod_noop_general(x * y, z, q);
    lemma_mul_is_associative(x, y, z);
    assert(fp_mul(x, fp_mul(y, z)) == (x * (y * z)) % q);
    assert(fp_mul(fp_mul(x, y), z) == ((x * y) * z) % q);
}

/// Multiplication distributes over addition:
/// x * (y + z) == x * y + x * z in the field.
pub proof fn lemma_fp_mul_distributes(x: int, y: int, z: int)
    ensures
        fp_mul(x, fp_add(y, z)) == fp_add(fp_mul(x, y), fp_mul(x, z)),
{
    let q = p() as int;
    lemma_mul_mod_noop_general(x, y + z, q);
    lemma_mul_is_distributive_add(x, y, z);
    assert(fp_mul(x, fp_add(y, z)) == (x * y + x * z) % q);
    lemma_mul_mod_noop_general(x, y, q);
    lemma_mul_mod_noop_general(x, z, q);
    lemma_add_mod_noop(x * y, x * z, q);
    assert(fp_add(fp_mul(x, y), fp_mul(x, z)) == (x * y + x * z) % q);
}

/// Every residue cancels against its negation: x + (-x) == 0 in the field.
pub proof fn lemma_fp_add_neg(x: int)
    ensures
        fp_add(x, fp_neg(x)) == 0,
{
    let q = p() as int;
    lemma_add_mod_noop_right(x, -x, q);
    assert(fp_add(x, fp_neg(x)) == (x + -x) % q);
    assert((0int) % q == 0) by {
        lemma_small_mod(0, p());
    }
}

/// One is the multiplicative identity on reduced residues: x * 1 == x.
pub proof fn lemma_fp_mul_one(x: int)
    requires
        0 <= x < p(),
    ensures
        fp_mul(x, 1) == x,
{
    lemma_small_mod(x as nat, p());
}

/// A residue has at most one multiplicative inverse among the reduced
/// residues: the equation y * x == 1 pins y down.
pub proof fn lemma_fp_inverse_unique(x: int, y1: int, y2: int)
    requires
        0 <= y1 < p(),
        0 <= y2 < p(),
        fp_mul(y1, x) == 1,
        fp_mul(y2, x) == 1,
    ensures
        y1 == y2,
{
    let q = p() as int;
    // y1 == y1 * (y2 * x) == (y1 * x) * y2 == y2, all modulo p.
    lemma_mul_mod_noop_general(y1, y2 * x, q);
    assert((y1 * (y2 * x)) % q == (y1 * ((y2 * x) % q)) % q);
    assert((y1 * 1) % q == y1 % q);
    lemma_small_mod(y1 as nat, p());
    lemma_mul_is_associative(y1, y2, x);
    lemma_mul_is_associative(y1, x, y2);
    assert(y1 * (y2 * x) == (y1 * x) * y2) by {
        assert(y2 * x == x * y2) by {
            vstd::arithmetic::mul::lemma_mul_is_commutative(y2, x);
        }
    }
    lemma_mul_mod_noop_general(y1 * x, y2, q);
    assert(((y1 * x) * y2) % q == (((y1 * x) % q) * y2) % q);
    assert((1 * y2) % q == y2 % q);
    lemma_small_mod(y2 as nat, p());
}

/// Multiplying congruent right factors keeps the products congruent.
pub proof fn lemma_fp_mul_congruent_right(r: int, a: int, b: int)
    requires
        a % (p() as int) == b % (p() as int),
    ensures
        (r * a) % (p() as int) == (r * b) % (p() as int),
{
    let q = p() as int;
    lemma_mul_mod_noop_right(r, a, q);
    lemma_mul_mod_noop_right(r, b, q);
}

/// Squaring the base halves the exponent:
/// (b * b mod p)^k == b^(2k), modulo p.
pub proof fn lemma_fp_pow_square(b: int, k: nat)
    ensures
        pow(fp_mul(b, b), k) % (p() as int) == pow(b, 2 * k) % (p() as int),
{
    let q = p() as int;
    lemma_pow_mod_noop(b * b, k, q);
    lemma_square_is_pow2(b);
    lemma_pow_multiplies(b, 2, k);
}

/// Peeling one factor off a positive power:
/// (r * b mod p) * b^(e-1) == r * b^e, modulo p.
pub proof fn lemma_fp_pow_peel(r: int, b: int, e: nat)
    requires
        e > 0,
    ensures
        (fp_mul(r, b) * pow(b, (e - 1) as nat)) % (p() as int) == (r * pow(b, e)) % (p() as int),
{
    let q = p() as int;
    lemma_mul_mod_noop_left(r * b, pow(b, (e - 1) as nat), q);
    assert(pow(b, e) == b * pow(b, (e - 1) as nat)) by {
        reveal(pow);
    }
    lemma_mul_is_associative(r, b, pow(b, (e - 1) as nat));
}

/// A reduced residue is what `%` leaves behind.
pub proof fn lemma_fp_reduced(a: int)
    ensures
        0 <= a % (p() as int) < p(),
{
    lemma_mod_bound(a, p() as int);
}

} // verus!
