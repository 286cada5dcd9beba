//! The field-element type: one reduced residue of the BN254 scalar
//! field, held as its canonical 32-byte big-endian encoding.

use crate::arith::{
    fp_add, fp_mul, fp_neg, fp_sub, lemma_fp_mul_congruent_right, lemma_fp_pow_peel,
    lemma_fp_pow_square, lemma_fp_reduced, p,
};
use vstd::arithmetic::power::pow;
use crate::backend;
use crate::encoding::{
    be_val, hex_val, is_hex_digit, lemma_be_val_zero_iff, lemma_be_val_zero_pad,
    lemma_hex_pairs_be_val, lemma_hex_val_prepend_zero, strip_hex_prefix,
};
use vstd::arithmetic::div_mod::lemma_small_mod;
use vstd::prelude::*;
use vstd::string::{StrSliceExecFns, StringExecFns};

verus! {

broadcast use vstd::array::group_array_axioms;

/// How an operation on field elements can fail.
#[derive(Clone, Debug)]
pub enum FieldError {
    /// The input was no hex encoding of at most 32 bytes; carries the
    /// offending input.
    DecodeError(String),
    /// The zero element has no multiplicative inverse.
    NonInvertible,
}

/// One element of the BN254 scalar field.
///
/// The view of an element is the residue it represents, a natural
/// number below [`p`]; the bytes held are always its canonical
/// big-endian encoding, so equal residues are equal values.
#[derive(Clone, Copy, Debug)]
pub struct Fr {
    bytes: [u8; 32],
}

impl PartialEq for Fr {
    fn eq(&self, other: &Fr) -> (r: bool) {
        let mut i: usize = 0;
        while i < 32
            invariant
                i <= 32,
                forall|j: int| 0 <= j < i ==> self.bytes@[j] == other.bytes@[j],
            decreases 32 - i,
        {
            if self.bytes[i] != other.bytes[i] {
                proof {
                    if self@ == other@ {
                        crate::encoding::lemma_be_val_injective(self.bytes@, other.bytes@);
                    }
                }
                return false;
            }
            i += 1;
        }
        proof {
            assert(self.bytes@ =~= other.bytes@);
        }
        true
    }
}

impl Eq for Fr {

}

impl vstd::std_specs::cmp::PartialEqSpecImpl for Fr {
    open spec fn obeys_eq_spec() -> bool {
        true
    }

    open spec fn eq_spec(&self, other: &Fr) -> bool {
        self.view() == other.view()
    }
}

impl View for Fr {
    type V = nat;

    closed spec fn view(&self) -> nat {
        be_val(self.bytes@)
    }
}

impl Fr {
    /// Every live element holds a reduced residue; Verus enforces this
    /// as a type invariant at each construction.
    #[verifier::type_invariant]
    pub open spec fn reduced(self) -> bool {
        self.view() < p()
    }

    /// The element representing a 64-bit integer, which is always
    /// below the field order.
    pub fn from_u64(x: u64) -> (r: Fr)
        ensures
            r@ == x as nat,
    {
        let bytes = backend::fr_u64_bytes(x);
        proof {
            assert((u64::MAX as nat) < p());
            lemma_small_mod(x as nat, p());
        }
        Fr { bytes }
    }

    /// The residue of the 256-bit integer that 32 big-endian bytes
    /// denote: values at or above the field order are reduced.
    pub fn from_bytes(bytes: &[u8; 32]) -> (r: Fr)
        ensures
            r@ == be_val(bytes@) % p(),
    {
        let b = backend::fr_reduce_bytes(bytes.as_slice());
        proof {
            lemma_fp_reduced(be_val(bytes@) as int);
        }
        Fr { bytes: b }
    }

    /// The element a hex string denotes. A single leading `0x` or `0X`
    /// marker is accepted; an odd count of digits reads as if a zero
    /// digit were prepended; the digits, as big-endian bytes padded on
    /// the left to 32 bytes, are then reduced as by [`Fr::from_bytes`].
    /// A character that is no hex digit, or more than 64 digits, is
    /// refused, with the offending input carried in the error.
    pub fn from_str(s: &str) -> (r: Result<Fr, FieldError>)
        ensures
            ({
                let d = strip_hex_prefix(s@);
                match r {
                    Ok(x) => d.len() <= 64 && (forall|i: int|
                        0 <= i < d.len() ==> is_hex_digit(#[trigger] d[i])) && x@ == hex_val(d)
                        % p(),
                    Err(e) => (d.len() > 64 || (exists|i: int|
                        0 <= i < d.len() && !is_hex_digit(#[trigger] d[i]))) && (e matches
                        FieldError::DecodeError(inp) && inp@ == s@),
                }
            }),
    {
        let normalized = normalize_hex(s);
        let ghost d = strip_hex_prefix(s@);
        let ghost odd = d.len() % 2 == 1;
        let ghost d2 = normalized@;
        let decoded = backend::hex_decode(normalized.as_str());
        match decoded {
            Err(_) => {
                proof {
                    if odd {
                        assert(d2.len() % 2 == 0);
                        let i = choose|i: int| 0 <= i < d2.len() && !is_hex_digit(d2[i]);
                        assert(is_hex_digit('0'));
                        assert(d2[0] == '0');
                        assert(d2[i] == d[i - 1]);
                        assert(!is_hex_digit(d[i - 1]));
                    }
                }
                Err(FieldError::DecodeError(s.to_owned()))
            },
            Ok(v) => {
                if v.len() > 32 {
                    proof {
                        assert(d2.len() == 2 * v@.len());
                        assert(d.len() > 64);
                    }
                    Err(FieldError::DecodeError(s.to_owned()))
                } else {
                    let pad: usize = 32 - v.len();
                    let mut padded: Vec<u8> = Vec::new();
                    let mut k: usize = 0;
                    while k < pad
                        invariant
                            k <= pad,
                            padded@.len() == k,
                            forall|j: int| 0 <= j < k ==> padded@[j] == 0u8,
                        decreases pad - k,
                    {
                        padded.push(0u8);
                        k += 1;
                    }
                    let mut j: usize = 0;
                    while j < v.len()
                        invariant
                            j <= v@.len(),
                            v@.len() + pad == 32,
                            padded@.len() == pad + j,
                            forall|t: int| 0 <= t < pad ==> padded@[t] == 0u8,
                            forall|t: int| 0 <= t < j ==> padded@[pad + t] == v@[t],
                        decreases v.len() - j,
                    {
                        padded.push(v[j]);
                        j += 1;
                    }
                    proof {
                        assert(padded@ =~= Seq::new(pad as nat, |i: int| 0u8) + v@);
                        lemma_be_val_zero_pad(v@, pad as nat);
                        lemma_hex_pairs_be_val(d2, v@);
                        if odd {
                            lemma_hex_val_prepend_zero(d);
                            assert forall|i: int| 0 <= i < d.len() implies is_hex_digit(
                                #[trigger] d[i],
                            ) by {
                                assert(d[i] == d2[i + 1]);
                            }
                        }
                        assert(d2.len() == 2 * v@.len());
                        assert(d.len() <= 64);
                        lemma_fp_reduced(be_val(padded@) as int);
                    }
                    let b = backend::fr_reduce_bytes(padded.as_slice());
                    Ok(Fr { bytes: b })
                }
            },
        }
    }

    /// The canonical encoding: the reduced residue as exactly 32
    /// big-endian bytes.
    pub fn to_bytes(&self) -> (r: [u8; 32])
        ensures
            r@.len() == 32,
            be_val(r@) == self@,
    {
        self.bytes
    }

    /// The additive identity.
    pub fn zero() -> (r: Fr)
        ensures
            r@ == 0,
    {
        Fr::from_u64(0)
    }

    /// The multiplicative identity.
    pub fn one() -> (r: Fr)
        ensures
            r@ == 1,
    {
        Fr::from_u64(1)
    }

    /// Whether the element is the additive identity.
    pub fn is_zero(&self) -> (r: bool)
        ensures
            r == (self@ == 0),
    {
        let mut i: usize = 0;
        while i < 32
            invariant
                i <= 32,
                forall|j: int| 0 <= j < i ==> self.bytes@[j] == 0,
            decreases 32 - i,
        {
            if self.bytes[i] != 0 {
                proof {
                    lemma_be_val_zero_iff(self.bytes@);
                }
                return false;
            }
            i += 1;
        }
        proof {
            lemma_be_val_zero_iff(self.bytes@);
        }
        true
    }

    /// Modular addition.
    pub fn add(self, rhs: Fr) -> (r: Fr)
        ensures
            r@ == fp_add(self@ as int, rhs@ as int),
    {
        proof {
            use_type_invariant(self);
            use_type_invariant(rhs);
        }
        let bytes = backend::fr_add_bytes(&self.bytes, &rhs.bytes);
        proof {
            lemma_fp_reduced(self@ as int + rhs@ as int);
        }
        Fr { bytes }
    }

    /// Modular subtraction.
    pub fn sub(self, rhs: Fr) -> (r: Fr)
        ensures
            r@ == fp_sub(self@ as int, rhs@ as int),
    {
        proof {
            use_type_invariant(self);
            use_type_invariant(rhs);
        }
        let bytes = backend::fr_sub_bytes(&self.bytes, &rhs.bytes);
        proof {
            lemma_fp_reduced(self@ as int - rhs@ as int);
        }
        Fr { bytes }
    }

    /// Modular multiplication.
    pub fn mul(self, rhs: Fr) -> (r: Fr)
        ensures
            r@ == fp_mul(self@ as int, rhs@ as int),
    {
        proof {
            use_type_invariant(self);
            use_type_invariant(rhs);
        }
        let bytes = backend::fr_mul_bytes(&self.bytes, &rhs.bytes);
        proof {
            lemma_fp_reduced(self@ as int * rhs@ as int);
        }
        Fr { bytes }
    }

    /// Modular negation.
    pub fn neg(self) -> (r: Fr)
        ensures
            r@ == fp_neg(self@ as int),
    {
        proof {
            use_type_invariant(self);
        }
        let bytes = backend::fr_neg_bytes(&self.bytes);
        proof {
            lemma_fp_reduced(-(self@ as int));
        }
        Fr { bytes }
    }

    /// Modular exponentiation by repeated squaring. The exponent is an
    /// ordinary unsigned integer, not a field element, and is honoured
    /// in its full 128-bit width.
    pub fn pow(&self, exp: u128) -> (r: Fr)
        ensures
            r@ == pow(self@ as int, exp as nat) % (p() as int),
    {
        let mut result = Fr::one();
        let mut base = *self;
        let mut e: u128 = exp;
        while e > 0
            invariant
                (result@ as int * pow(base@ as int, e as nat)) % (p() as int) == pow(
                    self@ as int,
                    exp as nat,
                ) % (p() as int),
            decreases e,
        {
            let ghost r0 = result@ as int;
            let ghost b0 = base@ as int;
            let ghost e0 = e as nat;
            if e % 2 == 1 {
                result = result.mul(base);
            }
            base = base.mul(base);
            e = e / 2;
            proof {
                let k = e as nat;
                if e0 % 2 == 1 {
                    lemma_fp_pow_peel(r0, b0, e0);
                    assert(e0 - 1 == 2 * k);
                    lemma_fp_pow_square(b0, k);
                    lemma_fp_mul_congruent_right(
                        result@ as int,
                        pow(base@ as int, k),
                        pow(b0, 2 * k),
                    );
                } else {
                    assert(e0 == 2 * k);
                    lemma_fp_pow_square(b0, k);
                    lemma_fp_mul_congruent_right(r0, pow(base@ as int, k), pow(b0, 2 * k));
                }
            }
        }
        proof {
            vstd::arithmetic::power::lemma_pow0(base@ as int);
            use_type_invariant(result);
            lemma_small_mod(result@, p());
        }
        result
    }

    /// The multiplicative inverse: absent exactly on the zero element.
    pub fn inverse(&self) -> (r: Option<Fr>)
        ensures
            r is None <==> self@ == 0,
            r matches Some(y) ==> fp_mul(y@ as int, self@ as int) == 1,
    {
        proof {
            use_type_invariant(self);
        }
        match backend::fr_inverse_bytes(&self.bytes) {
            None => None,
            Some(b) => Some(Fr { bytes: b }),
        }
    }
}

/// A hex string brought to the form the byte decoder takes: a single
/// leading `0x` or `0X` marker is removed, and an odd count of digits
/// is padded to even by one leading zero digit, which leaves the
/// denoted integer unchanged.
pub fn normalize_hex(s: &str) -> (r: String)
    ensures
        ({
            let d = strip_hex_prefix(s@);
            r@ == if d.len() % 2 == 1 {
                seq!['0'] + d
            } else {
                d
            }
        }),
{
    let n = s.unicode_len();
    let digits: &str = if n >= 2 && s.get_char(0) == '0' && (s.get_char(1) == 'x' || s.get_char(1)
        == 'X') {
        s.substring_char(2, n)
    } else {
        s
    };
    proof {
        assert(digits@ =~= strip_hex_prefix(s@));
    }
    let dn = digits.unicode_len();
    if dn % 2 == 1 {
        let mut t = "0".to_owned();
        proof {
            reveal_strlit("0");
            assert(t@ =~= seq!['0']);
        }
        t.append(digits);
        t
    } else {
        digits.to_owned()
    }
}

/// Round-trip: 32 bytes that denote a value below the field order come
/// back unchanged from the element they construct. Together with the
/// contracts of [`Fr::from_bytes`] and [`Fr::to_bytes`], whose output
/// `c` stands for here, the bytes written equal the bytes read.
pub proof fn lemma_bytes_round_trip(b: Seq<u8>, c: Seq<u8>)
    requires
        b.len() == 32,
        c.len() == 32,
        be_val(b) < p(),
        be_val(c) == be_val(b) % p(),
    ensures
        c == b,
{
    lemma_small_mod(be_val(b), p());
    crate::encoding::lemma_be_val_injective(c, b);
}

/// Reduction: 32 bytes that denote a value at or above the field order
/// construct the element of the reduced value, so what
/// [`Fr::to_bytes`] then writes, `c` here, encodes that residue and
/// differs from the input.
pub proof fn lemma_bytes_reduction(b: Seq<u8>, c: Seq<u8>)
    requires
        b.len() == 32,
        c.len() == 32,
        be_val(b) >= p(),
        be_val(c) == be_val(b) % p(),
    ensures
        be_val(c) < p(),
        c != b,
{
    lemma_fp_reduced(be_val(b) as int);
}

/// Any two elements that both invert `x` are one and the same element:
/// with the contracts of [`Fr::inverse`] and of batch inversion, a
/// batch output is, byte for byte, what single inversion returns.
pub proof fn lemma_inverse_agrees(x: Fr, y1: Fr, y2: Fr)
    requires
        y1.reduced(),
        y2.reduced(),
        fp_mul(y1@ as int, x@ as int) == 1,
        fp_mul(y2@ as int, x@ as int) == 1,
    ensures
        y1 == y2,
{
    crate::arith::lemma_fp_inverse_unique(x@ as int, y1@ as int, y2@ as int);
    lemma_eq_iff_value_eq(y1, y2);
}

/// Elements are equal exactly when they represent the same residue:
/// the encoding held is canonical, so value equality is structural
/// equality.
pub proof fn lemma_eq_iff_value_eq(a: Fr, b: Fr)
    ensures
        a == b <==> a@ == b@,
{
    if a@ == b@ {
        crate::encoding::lemma_be_val_injective(a.bytes@, b.bytes@);
        assert(a.bytes =~= b.bytes);
    }
}

} // verus!
