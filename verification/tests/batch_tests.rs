use bn254_fr::{batch_inverse, FieldError, Fr};

#[test]
fn batch_empty_succeeds() {
    let vals: Vec<Fr> = Vec::new();
    let mut out: Vec<Fr> = Vec::new();
    assert!(batch_inverse(&vals, &mut out).is_ok());
    assert!(out.is_empty());
}

#[test]
fn batch_matches_single_inversion() {
    let vals = vec![
        Fr::from_u64(2),
        Fr::from_u64(3),
        Fr::from_u64(5),
        Fr::from_u64(7),
        Fr::from_u64(u64::MAX),
    ];
    let mut out = vec![Fr::zero(); vals.len()];
    assert!(batch_inverse(&vals, &mut out).is_ok());
    for i in 0..vals.len() {
        assert_eq!(out[i].mul(vals[i]), Fr::one());
        let single = vals[i].inverse().unwrap();
        assert_eq!(out[i], single);
        assert_eq!(out[i].to_bytes(), single.to_bytes());
    }
}

#[test]
fn batch_single_element() {
    let vals = vec![Fr::from_u64(41)];
    let mut out = vec![Fr::zero(); 1];
    assert!(batch_inverse(&vals, &mut out).is_ok());
    assert_eq!(out[0], Fr::from_u64(41).inverse().unwrap());
}

#[test]
fn batch_zero_fails_atomically() {
    let sentinel = Fr::from_u64(9);
    for zero_at in 0..3usize {
        let mut vals = vec![Fr::from_u64(11), Fr::from_u64(13), Fr::from_u64(17)];
        vals[zero_at] = Fr::zero();
        let mut out = vec![sentinel; 3];
        let r = batch_inverse(&vals, &mut out);
        assert!(matches!(r, Err(FieldError::NonInvertible)));
        for o in out.iter() {
            assert_eq!(*o, sentinel);
        }
    }
}

#[test]
fn batch_scenario_five_zero_seven() {
    let five = Fr::from_u64(5);
    let zero = Fr::from_u64(0);
    let seven = Fr::from_u64(7);
    let mut out = vec![Fr::zero(); 3];
    let r = batch_inverse(&vec![five, zero, seven], &mut out);
    assert!(matches!(r, Err(FieldError::NonInvertible)));

    let mut out2 = vec![Fr::zero(); 2];
    assert!(batch_inverse(&vec![five, seven], &mut out2).is_ok());
    assert_eq!(out2[0], five.inverse().unwrap());
    assert_eq!(out2[1], seven.inverse().unwrap());
    assert_eq!(five.mul(out2[0]), Fr::one());
    assert_eq!(seven.mul(out2[1]), Fr::one());
}
