use rust_pot::codec::{
    contract_bytes_to_g1, contract_bytes_to_g2, encode_bytes_hex, keccak256, serialize_fr,
    serialize_g1, serialize_g2, CodecError,
};
use rust_pot::curve::{
    fr_rand, g1_eq, g1_generator, g1_identity, g1_is_valid, g2_eq, g2_generator, g2_is_valid,
    g2_mul, rand_g1,
};
use rust_pot::protocol::hash_randomness;

#[test]
fn test_g1_round_trip() {
    let p = rand_g1();
    let enc = serialize_g1(&p);
    assert_eq!(enc.len(), 64);
    let dec = contract_bytes_to_g1(&enc).unwrap();
    assert!(g1_eq(&dec, &p));
}

#[test]
fn test_g2_round_trip() {
    let s = fr_rand();
    let p = g2_mul(&g2_generator(), &s);
    let enc = serialize_g2(&p);
    assert_eq!(enc.len(), 128);
    let dec = contract_bytes_to_g2(&enc).unwrap();
    assert!(g2_eq(&dec, &p));
}

#[test]
fn test_decode_wrong_length_g1() {
    assert!(matches!(contract_bytes_to_g1(&[0u8; 63]), Err(CodecError::MalformedEncoding)));
    assert!(matches!(contract_bytes_to_g1(&[0u8; 65]), Err(CodecError::MalformedEncoding)));
    assert!(matches!(contract_bytes_to_g1(&[]), Err(CodecError::MalformedEncoding)));
}

#[test]
fn test_decode_wrong_length_g2() {
    assert!(matches!(contract_bytes_to_g2(&[0u8; 127]), Err(CodecError::MalformedEncoding)));
    assert!(matches!(contract_bytes_to_g2(&[0u8; 129]), Err(CodecError::MalformedEncoding)));
}

#[test]
fn test_serialize_g1_generator() {
    // The first group's generator has affine coordinates (1, 2).
    let enc = serialize_g1(&g1_generator());
    let mut expected = vec![0u8; 64];
    expected[31] = 1;
    expected[63] = 2;
    assert_eq!(enc, expected);
}

#[test]
fn test_serialize_g1_identity() {
    // The library represents the identity by the affine pair (0, 1);
    // that encoding decodes to a different (off-curve) point, so the
    // round trip holds of every point but the identity.
    let enc = serialize_g1(&g1_identity());
    let mut expected = vec![0u8; 64];
    expected[63] = 1;
    assert_eq!(enc, expected);
    let dec = contract_bytes_to_g1(&enc).unwrap();
    assert!(!g1_eq(&dec, &g1_identity()));
}

#[test]
fn test_decoded_points_membership() {
    // Decoding checks no membership; the explicit check tells a decoded
    // curve point from decoded garbage.
    let p = rand_g1();
    let dec = contract_bytes_to_g1(&serialize_g1(&p)).unwrap();
    assert!(g1_is_valid(&dec));
    let mut garbage = vec![0u8; 64];
    garbage[63] = 1;
    let off = contract_bytes_to_g1(&garbage).unwrap();
    assert!(!g1_is_valid(&off));
    let q = g2_mul(&g2_generator(), &fr_rand());
    let dec2 = contract_bytes_to_g2(&serialize_g2(&q)).unwrap();
    assert!(g2_is_valid(&dec2));
}

#[test]
fn test_keccak256_known_digest() {
    // Keccak-256 of the empty input.
    let digest = keccak256(&[]);
    let expected = [
        0xc5u8, 0xd2, 0x46, 0x01, 0x86, 0xf7, 0x23, 0x3c, 0x92, 0x7e, 0x7d, 0xb2, 0xdc, 0xc7,
        0x03, 0xc0, 0xe5, 0x00, 0xb6, 0x53, 0xca, 0x82, 0x27, 0x3b, 0x7b, 0xfa, 0xd8, 0x04,
        0x5d, 0x85, 0xa4, 0x70,
    ];
    assert_eq!(digest, expected);
}

#[test]
fn test_hash_randomness_deterministic() {
    let p1 = rand_g1();
    let p2 = rand_g1();
    let p3 = rand_g1();
    let h1 = hash_randomness(&p1, &p2, &p3);
    let h2 = hash_randomness(&p1, &p2, &p3);
    assert_eq!(h1, h2);
    // Changing any one input changes the digest.
    let q = rand_g1();
    assert_ne!(hash_randomness(&q, &p2, &p3), h1);
    assert_ne!(hash_randomness(&p1, &q, &p3), h1);
    assert_ne!(hash_randomness(&p1, &p2, &q), h1);
}

#[test]
fn test_serialize_fr_length_and_determinism() {
    let s = fr_rand();
    let b1 = serialize_fr(&s);
    let b2 = serialize_fr(&s);
    assert_eq!(b1.len(), 32);
    assert_eq!(b1, b2);
}

#[test]
fn test_encode_bytes_hex() {
    assert_eq!(encode_bytes_hex(&[]), "0x");
    assert_eq!(encode_bytes_hex(&[0xde, 0xad, 0xbe, 0xef]), "0xdeadbeef");
    assert_eq!(encode_bytes_hex(&[0x00, 0x01, 0x0a, 0xff]), "0x00010aff");
}
