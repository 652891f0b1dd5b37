use mimc_groth16::field::Fr;
use mimc_groth16::mimc::{mimc, random_constants};
use mimc_groth16::snark::pop;
use mimc_groth16::ZkError;
use rand::rngs::StdRng;
use rand::SeedableRng;

#[test]
fn field_add_and_mul_exact() {
    let two = Fr::from_u64(2);
    let three = Fr::from_u64(3);
    assert_eq!(two.add(&three).to_bytes(), Fr::from_u64(5).to_bytes());
    let seven = Fr::from_u64(7);
    let six = Fr::from_u64(6);
    assert_eq!(seven.mul(&six).to_bytes(), Fr::from_u64(42).to_bytes());
}

#[test]
fn field_neg_cancels() {
    let one = Fr::from_u64(1);
    let zero = Fr::from_u64(0);
    assert_eq!(one.neg().add(&one).to_bytes(), zero.to_bytes());
}

#[test]
fn field_encoding_is_little_endian() {
    let x = Fr::from_u64(258);
    let b = x.to_bytes();
    assert_eq!(b.len(), 32);
    assert_eq!(b[0], 2);
    assert_eq!(b[1], 1);
    for i in 2..32 {
        assert_eq!(b[i], 0);
    }
}

#[test]
fn field_from_bytes_round_trip() {
    let x = Fr::from_u64(123456789);
    let b = x.to_bytes();
    let y = Fr::from_bytes(&b).unwrap();
    assert_eq!(y.to_bytes(), b);
}

#[test]
fn field_from_bytes_rejects_wrong_length() {
    let b = vec![0u8; 31];
    assert_eq!(Fr::from_bytes(&b).unwrap_err(), ZkError::DecodeError);
    let b = vec![0u8; 33];
    assert_eq!(Fr::from_bytes(&b).unwrap_err(), ZkError::DecodeError);
}

#[test]
fn field_from_bytes_rejects_non_canonical() {
    let b = vec![0xffu8; 32];
    assert_eq!(Fr::from_bytes(&b).unwrap_err(), ZkError::DecodeError);
}

#[test]
fn field_eq_compares_values() {
    let a = Fr::from_u64(77);
    let b = Fr::from_u64(77);
    let c = Fr::from_u64(78);
    assert!(a.eq_fr(&b));
    assert!(!a.eq_fr(&c));
}

#[test]
fn mimc_one_round_formula() {
    // one round with constant zero: image = xr + xl^3 = 3 + 8 = 11
    let xl = Fr::from_u64(2);
    let xr = Fr::from_u64(3);
    let constants = vec![Fr::from_u64(0)];
    let image = mimc(&xl, &xr, &constants);
    assert_eq!(image.to_bytes(), Fr::from_u64(11).to_bytes());
}

#[test]
fn mimc_one_round_with_constant() {
    // one round with constant 1: image = xr + (xl + 1)^3 = 3 + 27 = 30
    let xl = Fr::from_u64(2);
    let xr = Fr::from_u64(3);
    let constants = vec![Fr::from_u64(1)];
    let image = mimc(&xl, &xr, &constants);
    assert_eq!(image.to_bytes(), Fr::from_u64(30).to_bytes());
}

#[test]
fn mimc_no_rounds_returns_left_half() {
    let xl = Fr::from_u64(9);
    let xr = Fr::from_u64(4);
    let constants: Vec<Fr> = vec![];
    assert_eq!(mimc(&xl, &xr, &constants).to_bytes(), xl.to_bytes());
}

#[test]
fn mimc_two_rounds_formula() {
    // round 1: t = 2, new (xl, xr) = (3 + 8, 2) = (11, 2)
    // round 2: t = 11, image = 2 + 1331 = 1333
    let xl = Fr::from_u64(2);
    let xr = Fr::from_u64(3);
    let constants = vec![Fr::from_u64(0), Fr::from_u64(0)];
    let image = mimc(&xl, &xr, &constants);
    assert_eq!(image.to_bytes(), Fr::from_u64(1333).to_bytes());
}

#[test]
fn mimc_depends_on_constants() {
    let xl = Fr::from_u64(2);
    let xr = Fr::from_u64(3);
    let mut rng = StdRng::from_seed([5u8; 32]);
    let c1 = random_constants(4, &mut rng);
    let c2 = random_constants(4, &mut rng);
    let i1 = mimc(&xl, &xr, &c1);
    let i2 = mimc(&xl, &xr, &c2);
    assert_ne!(i1.to_bytes(), i2.to_bytes());
}

#[test]
fn random_constants_length_and_freshness() {
    let mut rng = StdRng::from_seed([1u8; 32]);
    let cs = random_constants(10, &mut rng);
    assert_eq!(cs.len(), 10);
    assert_ne!(cs[0].to_bytes(), cs[1].to_bytes());
}

#[test]
fn pop_keeps_bytes() {
    let v: Vec<u8> = (0u8..32u8).collect();
    let a = pop(v.clone());
    assert_eq!(a.to_vec(), v);
}
