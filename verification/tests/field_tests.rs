use bn254_fr::{normalize_hex, FieldError, Fr};

const P_HEX: &str = "30644e72e131a029b85045b68181585d2833e84879b9709143e1f593f0000001";
const P_MINUS_ONE_HEX: &str = "30644e72e131a029b85045b68181585d2833e84879b9709143e1f593f0000000";
const P_PLUS_ONE_HEX: &str = "30644e72e131a029b85045b68181585d2833e84879b9709143e1f593f0000002";

fn bytes32(hex_str: &str) -> [u8; 32] {
    let v = hex::decode(hex_str).unwrap();
    let mut out = [0u8; 32];
    out.copy_from_slice(&v);
    out
}

#[test]
fn from_u64_canonical_bytes() {
    assert_eq!(Fr::zero().to_bytes(), [0u8; 32]);
    let mut one = [0u8; 32];
    one[31] = 1;
    assert_eq!(Fr::one().to_bytes(), one);
    let mut b258 = [0u8; 32];
    b258[30] = 1;
    b258[31] = 2;
    assert_eq!(Fr::from_u64(258).to_bytes(), b258);
}

#[test]
fn round_trip_below_p() {
    let mut b = [0x12u8; 32];
    assert_eq!(Fr::from_bytes(&b).to_bytes(), b);
    b = [0u8; 32];
    b[31] = 1;
    assert_eq!(Fr::from_bytes(&b).to_bytes(), b);
    let pm1 = bytes32(P_MINUS_ONE_HEX);
    assert_eq!(Fr::from_bytes(&pm1).to_bytes(), pm1);
}

#[test]
fn reduction_at_and_above_p() {
    let pb = bytes32(P_HEX);
    assert_eq!(Fr::from_bytes(&pb), Fr::zero());
    assert_eq!(Fr::from_bytes(&pb).to_bytes(), [0u8; 32]);
    let pp1 = bytes32(P_PLUS_ONE_HEX);
    assert_eq!(Fr::from_bytes(&pp1), Fr::one());
    assert_ne!(Fr::from_bytes(&pp1).to_bytes(), pp1);
    let all_ff = [0xffu8; 32];
    let r = Fr::from_bytes(&all_ff);
    assert_ne!(r.to_bytes(), all_ff);
}

#[test]
fn hex_odd_length_normalization() {
    let a = Fr::from_str("0x1").unwrap();
    let b = Fr::from_str("0x01").unwrap();
    assert_eq!(a, b);
    assert_eq!(a, Fr::from_u64(1));
    assert_eq!(Fr::from_str("0xabc").unwrap(), Fr::from_str("0x0abc").unwrap());
}

#[test]
fn hex_prefix_and_case_variants() {
    assert_eq!(Fr::from_str("0X1").unwrap(), Fr::from_u64(1));
    assert_eq!(Fr::from_str("1").unwrap(), Fr::from_u64(1));
    assert_eq!(Fr::from_str("ff").unwrap(), Fr::from_u64(255));
    assert_eq!(Fr::from_str("FF").unwrap(), Fr::from_u64(255));
    assert_eq!(Fr::from_str("0x").unwrap(), Fr::zero());
    assert_eq!(Fr::from_str("").unwrap(), Fr::zero());
    assert_eq!(Fr::from_str(P_HEX).unwrap(), Fr::zero());
}

#[test]
fn normalize_hex_forms() {
    assert_eq!(normalize_hex("0x1"), "01");
    assert_eq!(normalize_hex("0xabc"), "0abc");
    assert_eq!(normalize_hex("ff"), "ff");
    assert_eq!(normalize_hex("0X12"), "12");
    assert_eq!(normalize_hex(""), "");
    assert_eq!(normalize_hex("0x"), "");
}

#[test]
fn ring_laws_on_samples() {
    let samples = [
        Fr::from_u64(0),
        Fr::from_u64(1),
        Fr::from_u64(123456789),
        Fr::from_str(P_MINUS_ONE_HEX).unwrap(),
        Fr::from_str("0x1234567890abcdef1234567890abcdef").unwrap(),
    ];
    for &x in samples.iter() {
        for &y in samples.iter() {
            for &z in samples.iter() {
                assert_eq!(x.add(y.add(z)), x.add(y).add(z));
                assert_eq!(x.mul(y.mul(z)), x.mul(y).mul(z));
                assert_eq!(x.mul(y.add(z)), x.mul(y).add(x.mul(z)));
            }
            assert_eq!(x.add(y), y.add(x));
        }
        assert_eq!(x.add(x.neg()), Fr::zero());
        assert_eq!(x.mul(Fr::one()), x);
        assert_eq!(x.add(Fr::zero()), x);
    }
}

#[test]
fn arithmetic_concrete_values() {
    assert_eq!(Fr::from_u64(1).add(Fr::from_u64(2)), Fr::from_u64(3));
    assert_eq!(Fr::from_u64(2).mul(Fr::from_u64(3)), Fr::from_u64(6));
    assert_eq!(Fr::from_u64(5).sub(Fr::from_u64(3)), Fr::from_u64(2));
    // wrap around the modulus in both directions
    assert_eq!(Fr::from_str(P_MINUS_ONE_HEX).unwrap().add(Fr::one()), Fr::zero());
    assert_eq!(Fr::zero().sub(Fr::one()), Fr::from_str(P_MINUS_ONE_HEX).unwrap());
    assert_eq!(Fr::one().neg().to_bytes(), bytes32(P_MINUS_ONE_HEX));
}

#[test]
fn inverse_law() {
    for v in [1u64, 2, 5, 123456789, u64::MAX] {
        let x = Fr::from_u64(v);
        let y = x.inverse().unwrap();
        assert_eq!(x.mul(y), Fr::one());
    }
    assert!(Fr::zero().inverse().is_none());
}

#[test]
fn pow_small_exponents() {
    assert_eq!(Fr::from_u64(2).pow(10), Fr::from_u64(1024));
    let x = Fr::from_u64(987654321);
    assert_eq!(x.pow(0), Fr::one());
    assert_eq!(x.pow(1), x);
    assert_eq!(x.pow(5), x.mul(x).mul(x).mul(x).mul(x));
    assert_eq!(Fr::zero().pow(0), Fr::one());
    assert_eq!(Fr::zero().pow(7), Fr::zero());
}

#[test]
fn pow_uses_full_exponent_width() {
    // 2^64 and beyond must not be truncated to the low word.
    let x = Fr::from_u64(3);
    let half = x.pow(1u128 << 63);
    assert_eq!(half.mul(half), x.pow(1u128 << 64));
    let a = x.pow(u64::MAX as u128);
    assert_eq!(a.mul(x), x.pow(1u128 << 64));
    assert_ne!(x.pow(1u128 << 64), Fr::one());
}

#[test]
fn is_zero_reports_the_zero_element() {
    assert!(Fr::zero().is_zero());
    assert!(Fr::from_str("0x0").unwrap().is_zero());
    assert!(!Fr::one().is_zero());
    assert!(!Fr::from_u64(42).is_zero());
}

#[test]
fn decode_failure_bad_character() {
    let r = Fr::from_str("0xzz");
    match r {
        Err(FieldError::DecodeError(inp)) => assert_eq!(inp, "0xzz"),
        _ => panic!("expected a decode failure"),
    }
    assert!(matches!(Fr::from_str("12g4"), Err(FieldError::DecodeError(_))));
}

#[test]
fn decode_failure_too_long() {
    let long = format!("0x{}", "ff".repeat(33));
    assert!(matches!(Fr::from_str(&long), Err(FieldError::DecodeError(_))));
    // 64 digits are the widest accepted form; 65 are refused
    let wide = "ff".repeat(32);
    assert!(Fr::from_str(&wide).is_ok());
    let over = format!("{}f", wide);
    assert!(matches!(Fr::from_str(&over), Err(FieldError::DecodeError(_))));
}

#[test]
fn hex_decoding_matches_bytes() {
    assert_eq!(Fr::from_str("0x0102").unwrap(), Fr::from_u64(258));
    let b = bytes32("00000000000000000000000000000000000000000000000000000000000004d2");
    assert_eq!(Fr::from_str("0x4d2").unwrap(), Fr::from_bytes(&b));
}
