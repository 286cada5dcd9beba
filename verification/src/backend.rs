//! The modular-arithmetic engine behind the field type, and the hex
//! decoder, each behind a trusted contract.
//!
//! Every function here carries values across the boundary as plain
//! big-endian bytes: the contracts speak of the integers those bytes
//! denote, through [`be_val`], and of the field order [`p`].

use crate::arith::{fp_add, fp_mul, fp_neg, fp_sub, p};
use crate::encoding::{be_val, hex_digit_val, is_hex_digit};
use ark_ff::BigInteger;
use ark_ff::Field;
use ark_ff::PrimeField;
use vstd::prelude::*;

verus! {

/// The error hex decoding reports; carried through opaquely and mapped
/// to the library's own error by the caller.
#[verifier::external_type_specification]
#[verifier::external_body]
pub struct ExFromHexError(hex::FromHexError);

/// Relies on `ark_ff::PrimeField::from_be_bytes_mod_order`, which reads
/// big-endian bytes and reduces modulo the field order, and on
/// `PrimeField::into_bigint` with `BigInteger::to_bytes_be`, which
/// return the canonical big-endian bytes of the reduced value.
#[verifier::external_body]
pub(crate) fn fr_reduce_bytes(b: &[u8]) -> (r: [u8; 32])
    ensures
        be_val(r@) == be_val(b@) % p(),
{
    let x = ark_bn254::Fr::from_be_bytes_mod_order(b);
    let v = x.into_bigint().to_bytes_be();
    let mut out = [0u8; 32];
    out.copy_from_slice(&v);
    out
}

/// Relies on `From<u64> for ark_bn254::Fr`, which embeds the integer
/// into the field, and on the canonical byte encoding as above.
#[verifier::external_body]
pub(crate) fn fr_u64_bytes(x: u64) -> (r: [u8; 32])
    ensures
        be_val(r@) == x as nat % p(),
{
    let f = ark_bn254::Fr::from(x);
    let v = f.into_bigint().to_bytes_be();
    let mut out = [0u8; 32];
    out.copy_from_slice(&v);
    out
}

/// Relies on field addition of `ark_bn254::Fr`: the sum of the two
/// residues, reduced modulo the field order.
#[verifier::external_body]
pub(crate) fn fr_add_bytes(a: &[u8; 32], b: &[u8; 32]) -> (r: [u8; 32])
    requires
        be_val(a@) < p(),
        be_val(b@) < p(),
    ensures
        be_val(r@) == fp_add(be_val(a@) as int, be_val(b@) as int),
{
    let x = ark_bn254::Fr::from_be_bytes_mod_order(a);
    let y = ark_bn254::Fr::from_be_bytes_mod_order(b);
    let v = (x + y).into_bigint().to_bytes_be();
    let mut out = [0u8; 32];
    out.copy_from_slice(&v);
    out
}

/// Relies on field subtraction of `ark_bn254::Fr`: the difference of
/// the two residues, reduced modulo the field order.
#[verifier::external_body]
pub(crate) fn fr_sub_bytes(a: &[u8; 32], b: &[u8; 32]) -> (r: [u8; 32])
    requires
        be_val(a@) < p(),
        be_val(b@) < p(),
    ensures
        be_val(r@) == fp_sub(be_val(a@) as int, be_val(b@) as int),
{
    let x = ark_bn254::Fr::from_be_bytes_mod_order(a);
    let y = ark_bn254::Fr::from_be_bytes_mod_order(b);
    let v = (x - y).into_bigint().to_bytes_be();
    let mut out = [0u8; 32];
    out.copy_from_slice(&v);
    out
}

/// Relies on field multiplication of `ark_bn254::Fr`: the product of
/// the two residues, reduced modulo the field order.
#[verifier::external_body]
pub(crate) fn fr_mul_bytes(a: &[u8; 32], b: &[u8; 32]) -> (r: [u8; 32])
    requires
        be_val(a@) < p(),
        be_val(b@) < p(),
    ensures
        be_val(r@) == fp_mul(be_val(a@) as int, be_val(b@) as int),
{
    let x = ark_bn254::Fr::from_be_bytes_mod_order(a);
    let y = ark_bn254::Fr::from_be_bytes_mod_order(b);
    let v = (x * y).into_bigint().to_bytes_be();
    let mut out = [0u8; 32];
    out.copy_from_slice(&v);
    out
}

/// Relies on field negation of `ark_bn254::Fr`: the additive inverse of
/// the residue, reduced modulo the field order.
#[verifier::external_body]
pub(crate) fn fr_neg_bytes(a: &[u8; 32]) -> (r: [u8; 32])
    requires
        be_val(a@) < p(),
    ensures
        be_val(r@) == fp_neg(be_val(a@) as int),
{
    let x = ark_bn254::Fr::from_be_bytes_mod_order(a);
    let v = (-x).into_bigint().to_bytes_be();
    let mut out = [0u8; 32];
    out.copy_from_slice(&v);
    out
}

/// Relies on `ark_ff::Field::inverse`: `None` exactly on the zero
/// element, otherwise the multiplicative inverse of the residue.
#[verifier::external_body]
pub(crate) fn fr_inverse_bytes(a: &[u8; 32]) -> (r: Option<[u8; 32]>)
    requires
        be_val(a@) < p(),
    ensures
        r is None <==> be_val(a@) == 0,
        r matches Some(y) ==> be_val(y@) < p() && fp_mul(be_val(y@) as int, be_val(a@) as int)
            == 1,
{
    let x = ark_bn254::Fr::from_be_bytes_mod_order(a);
    match x.inverse() {
        None => None,
        Some(y) => {
            let v = y.into_bigint().to_bytes_be();
            let mut out = [0u8; 32];
            out.copy_from_slice(&v);
            Some(out)
        },
    }
}

/// Relies on `hex::decode`: an even-length string of hex digits decodes
/// to one byte per digit pair, sixteen times the first digit plus the
/// second; an odd-length string or one holding any other character is
/// refused. The decoder reads bytes where this contract speaks of
/// characters: the two views agree, because every hex digit is ASCII
/// and a character outside ASCII yields only bytes that are no hex
/// digits.
#[verifier::external_body]
pub(crate) fn hex_decode(s: &str) -> (r: Result<Vec<u8>, hex::FromHexError>)
    ensures
        match r {
            Ok(v) => s@.len() % 2 == 0 && (forall|i: int|
                0 <= i < s@.len() ==> is_hex_digit(#[trigger] s@[i])) && v@.len() == s@.len() / 2
                && (forall|i: int|
                0 <= i < v@.len() ==> #[trigger] v@[i] == 16 * hex_digit_val(s@[2 * i])
                    + hex_digit_val(s@[2 * i + 1])),
            Err(_) => s@.len() % 2 != 0 || (exists|i: int|
                0 <= i < s@.len() && !is_hex_digit(#[trigger] s@[i])),
        },
{
    hex::decode(s)
}

} // verus!
