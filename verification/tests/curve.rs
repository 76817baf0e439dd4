use rand_core::OsRng;
use sha2::{Digest, Sha256};

use frost::curve::kp256::{Point, Scalar, Secp256k1, P256};
use frost::curve::{Curve, CurveError};

const P256_ORDER: &str = "ffffffff00000000ffffffffffffffffbce6faada7179e84f3b9cac2fc632551";
const K256_ORDER: &str = "fffffffffffffffffffffffffffffffebaaedce6af48a03bbfd25e8cd0364141";

fn scalar(x: u64) -> Scalar {
    P256::f_from_u64(x)
}

#[test]
fn scalars_are_written_big_endian() {
    let bytes = P256::F_to_bytes(&scalar(0x0102));
    assert_eq!(bytes.len(), 32);
    assert_eq!(&bytes[..30], &[0u8; 30]);
    assert_eq!(&bytes[30..], &[1u8, 2]);
    assert_eq!(P256::F_to_bytes(&Secp256k1::f_from_u64(0x0102)), bytes);
}

#[test]
fn scalar_arithmetic_is_modular() {
    assert_eq!(P256::f_add(scalar(2), scalar(3)), scalar(5));
    assert_eq!(P256::f_mul(scalar(6), scalar(7)), scalar(42));
    assert_eq!(P256::f_add(scalar(5), P256::f_neg(scalar(5))), scalar(0));
    assert_eq!(P256::f_neg(scalar(0)), scalar(0));
    assert_eq!(frost::curve::f_sub::<P256>(scalar(3), scalar(5)), P256::f_neg(scalar(2)));

    // the negation of one is the order less one
    let mut below = hex::decode(P256_ORDER).unwrap();
    below[31] -= 1;
    assert_eq!(P256::F_to_bytes(&P256::f_neg(scalar(1))), below);
    let mut below = hex::decode(K256_ORDER).unwrap();
    below[31] -= 1;
    assert_eq!(Secp256k1::F_to_bytes(&Secp256k1::f_neg(Secp256k1::f_from_u64(1))), below);
}

#[test]
fn scalars_invert_but_zero() {
    assert!(P256::f_invert(scalar(0)).is_none());
    assert!(Secp256k1::f_invert(Secp256k1::f_from_u64(0)).is_none());
    for x in [1u64, 2, 3, 65535, u64::MAX] {
        let inverse = P256::f_invert(scalar(x)).unwrap();
        assert_eq!(P256::f_mul(scalar(x), inverse), scalar(1));
        let inverse = Secp256k1::f_invert(Secp256k1::f_from_u64(x)).unwrap();
        assert_eq!(
            Secp256k1::f_mul(Secp256k1::f_from_u64(x), inverse),
            Secp256k1::f_from_u64(1)
        );
    }
}

#[test]
fn scalars_compare_by_value() {
    assert!(P256::f_eq(scalar(7), scalar(7)));
    assert!(!P256::f_eq(scalar(7), scalar(8)));
}

#[test]
fn scalar_decoding_asks_for_the_length() {
    assert!(matches!(
        P256::F_from_slice(&[0u8; 31]),
        Err(CurveError::InvalidLength(32, 31))
    ));
    assert!(matches!(
        P256::F_from_slice(&[0u8; 33]),
        Err(CurveError::InvalidLength(32, 33))
    ));
    assert!(matches!(P256::F_from_slice(&[]), Err(CurveError::InvalidLength(32, 0))));
}

#[test]
fn scalar_decoding_refuses_the_order_and_above() {
    let order = hex::decode(P256_ORDER).unwrap();
    assert!(matches!(P256::F_from_slice(&order), Err(CurveError::InvalidScalar)));
    assert!(matches!(P256::F_from_slice(&[0xff; 32]), Err(CurveError::InvalidScalar)));
    let mut below = order.clone();
    below[31] -= 1;
    assert_eq!(P256::F_from_slice(&below).unwrap(), P256::f_neg(scalar(1)));

    let order = hex::decode(K256_ORDER).unwrap();
    assert!(matches!(Secp256k1::F_from_slice(&order), Err(CurveError::InvalidScalar)));
    // the order of P-256 is below that of secp256k1
    assert!(Secp256k1::F_from_slice(&hex::decode(P256_ORDER).unwrap()).is_ok());
}

#[test]
fn scalars_round_trip() {
    for _ in 0..10 {
        let f = P256::f_random(&mut OsRng);
        assert_eq!(P256::F_from_slice(&P256::F_to_bytes(&f)).unwrap(), f);
        let f = Secp256k1::f_random(&mut OsRng);
        assert_eq!(Secp256k1::F_from_slice(&Secp256k1::F_to_bytes(&f)).unwrap(), f);
    }
}

#[test]
fn the_generator_is_the_published_one() {
    assert_eq!(
        hex::encode(P256::G_to_bytes(&P256::generator())),
        "036b17d1f2e12c4247f8bce6e563a440f277037d812deb33a0f4a13945d898c296"
    );
    assert_eq!(
        hex::encode(Secp256k1::G_to_bytes(&Secp256k1::generator())),
        "0279be667ef9dcbbac55a06295ce870b07029bfcdb2dce28d959f2815b16f81798"
    );
}

#[test]
fn point_arithmetic_follows_the_scalars() {
    let g = P256::generator();
    let two = P256::g_mul(g, scalar(2));
    assert_eq!(P256::g_add(g, g), two);
    assert_eq!(P256::g_mul(two, scalar(3)), P256::g_mul(g, scalar(6)));
    assert_eq!(P256::g_add(P256::g_mul(g, scalar(5)), P256::g_mul(g, scalar(7))), P256::g_mul(g, scalar(12)));
    assert!(P256::g_eq(P256::g_mul(g, scalar(1)), g));
    assert!(!P256::g_eq(two, g));
    // the order times the generator is the identity: one less is the negation
    let negated = P256::g_mul(g, P256::f_neg(scalar(1)));
    assert_eq!(P256::g_add(negated, two), g);
}

#[test]
fn the_identity_is_written_as_zeros() {
    let identity = P256::g_mul(P256::generator(), scalar(0));
    assert_eq!(P256::G_to_bytes(&identity), vec![0u8; 33]);
    assert_eq!(
        P256::g_add(P256::generator(), P256::g_mul(P256::generator(), P256::f_neg(scalar(1)))),
        identity
    );
}

#[test]
fn point_decoding_asks_for_the_length() {
    assert!(matches!(
        P256::G_from_slice(&[2u8; 32]),
        Err(CurveError::InvalidLength(33, 32))
    ));
    assert!(matches!(
        Secp256k1::G_from_slice(&[2u8; 65]),
        Err(CurveError::InvalidLength(33, 65))
    ));
}

#[test]
fn point_decoding_refuses_the_identity() {
    assert!(matches!(P256::G_from_slice(&[0u8; 33]), Err(CurveError::InvalidPoint)));
    assert!(matches!(Secp256k1::G_from_slice(&[0u8; 33]), Err(CurveError::InvalidPoint)));
}

#[test]
fn point_decoding_refuses_what_is_no_point() {
    // an unknown tag
    let mut bytes = P256::G_to_bytes(&P256::generator());
    bytes[0] = 7;
    assert!(matches!(P256::G_from_slice(&bytes), Err(CurveError::InvalidPoint)));
    // a first coordinate above the field's modulus
    let mut bytes = vec![0xffu8; 33];
    bytes[0] = 2;
    assert!(matches!(P256::G_from_slice(&bytes), Err(CurveError::InvalidPoint)));
    assert!(matches!(Secp256k1::G_from_slice(&bytes), Err(CurveError::InvalidPoint)));
}

#[test]
fn point_decoding_refuses_another_encoding_of_a_point() {
    // the compact form of a point is not its canonical encoding
    let mut bytes = P256::G_to_bytes(&P256::generator());
    bytes[0] = 5;
    assert!(matches!(P256::G_from_slice(&bytes), Err(CurveError::InvalidPoint)));
}

#[test]
fn points_round_trip() {
    for _ in 0..10 {
        let p = P256::g_mul(P256::generator(), P256::f_random(&mut OsRng));
        assert_eq!(P256::G_from_slice(&P256::G_to_bytes(&p)).unwrap(), p);
        let p = Secp256k1::g_mul(Secp256k1::generator(), Secp256k1::f_random(&mut OsRng));
        assert_eq!(Secp256k1::G_from_slice(&Secp256k1::G_to_bytes(&p)).unwrap(), p);
    }
}

#[test]
fn ids_and_lengths() {
    assert_eq!(P256::id(), b"P-256".to_vec());
    assert_eq!(Secp256k1::id(), b"secp256k1".to_vec());
    assert_eq!(P256::F_len(), 32);
    assert_eq!(P256::G_len(), 33);
    assert_eq!(Secp256k1::F_len(), 32);
    assert_eq!(Secp256k1::G_len(), 33);
    assert!(!P256::little_endian());
    assert!(!Secp256k1::little_endian());
}

#[test]
fn hash_msg_is_sha256_under_the_context() {
    let msg = b"a message";
    let mut input = b"FROST-P256-SHA256-v5digest".to_vec();
    input.extend(msg);
    assert_eq!(P256::hash_msg(msg), Sha256::digest(&input).to_vec());
    let mut input = b"FROST-secp256k1-SHA256-v5digest".to_vec();
    input.extend(msg);
    assert_eq!(Secp256k1::hash_msg(msg), Sha256::digest(&input).to_vec());
}

#[test]
fn hash_to_scalar_separates_domains() {
    let a = P256::hash_to_F(b"one tag", b"message");
    let b = P256::hash_to_F(b"another tag", b"message");
    let c = P256::hash_to_F(b"one tag", b"another message");
    assert_eq!(a, P256::hash_to_F(b"one tag", b"message"));
    assert_ne!(a, b);
    assert_ne!(a, c);
    assert_ne!(a, scalar(0));
}

// expand_message_xmd with SHA-256 to at most 64 bytes, written out
fn expand(dst: &[u8], msg: &[u8], len: u8) -> Vec<u8> {
    let mut dst_prime = dst.to_vec();
    dst_prime.push(dst.len() as u8);
    let mut input = vec![0u8; 64];
    input.extend(msg);
    input.extend([0u8, len, 0]);
    input.extend(&dst_prime);
    let b0 = Sha256::digest(&input).to_vec();
    let mut input = b0.clone();
    input.push(1);
    input.extend(&dst_prime);
    let b1 = Sha256::digest(&input).to_vec();
    let mut input: Vec<u8> = b0.iter().zip(&b1).map(|(x, y)| x ^ y).collect();
    input.push(2);
    input.extend(&dst_prime);
    let b2 = Sha256::digest(&input).to_vec();
    let mut res = b1;
    res.extend(&b2);
    res.truncate(usize::from(len));
    res
}

#[test]
fn hash_to_scalar_reduces_the_expanded_message() {
    for (dst, msg) in [
        (&b"QUUX-V01-CS02-with-expander-SHA256-128"[..], &b""[..]),
        (&b"QUUX-V01-CS02-with-expander-SHA256-128"[..], &b"abc"[..]),
        (&b"FROST-P256-SHA256-v5rho"[..], &b"a longer message, of more than one block of the hash function"[..]),
    ] {
        let expanded = expand(dst, msg, 48);
        // the 48 bytes as a number, reduced by the order: Horner's rule in the field
        let mut p = scalar(0);
        let mut k = Secp256k1::f_from_u64(0);
        for byte in &expanded {
            p = P256::f_add(P256::f_mul(p, scalar(256)), scalar(u64::from(*byte)));
            k = Secp256k1::f_add(
                Secp256k1::f_mul(k, Secp256k1::f_from_u64(256)),
                Secp256k1::f_from_u64(u64::from(*byte)),
            );
        }
        assert_eq!(P256::hash_to_F(dst, msg), p);
        assert_eq!(Secp256k1::hash_to_F(dst, msg), k);
    }
}

#[test]
fn the_expansion_written_out_gives_the_published_vectors() {
    let dst = b"QUUX-V01-CS02-with-expander-SHA256-128";
    assert_eq!(
        hex::encode(expand(dst, b"", 32)),
        "68a985b87eb6b46952128911f2a4412bbc302a9d759667f87f7a21d803f07235"
    );
    assert_eq!(
        hex::encode(expand(dst, b"abc", 32)),
        "d8ccab23b5985ccea865c6c97b6e5b8350e794e603b4b97902f53a8a0d605615"
    );
}

#[test]
fn an_oversize_tag_is_replaced_by_its_digest() {
    let long = vec![0x61u8; 256];
    let mut salted = b"H2C-OVERSIZE-DST-".to_vec();
    salted.extend(&long);
    let short = Sha256::digest(&salted).to_vec();
    assert_eq!(P256::hash_to_F(&long, b"msg"), P256::hash_to_F(&short, b"msg"));
    assert_eq!(Secp256k1::hash_to_F(&long, b"msg"), Secp256k1::hash_to_F(&short, b"msg"));
    // a tag of 255 bytes is used as it is
    let edge = vec![0x61u8; 255];
    let mut salted = b"H2C-OVERSIZE-DST-".to_vec();
    salted.extend(&edge);
    let hashed = Sha256::digest(&salted).to_vec();
    assert_ne!(P256::hash_to_F(&edge, b"msg"), P256::hash_to_F(&hashed, b"msg"));
}

#[test]
fn the_binding_factor_is_hashed_under_rho() {
    assert_eq!(
        P256::hash_binding_factor(b"transcript"),
        P256::hash_to_F(b"FROST-P256-SHA256-v5rho", b"transcript")
    );
    assert_eq!(
        Secp256k1::hash_binding_factor(b"transcript"),
        Secp256k1::hash_to_F(b"FROST-secp256k1-SHA256-v5rho", b"transcript")
    );
}

#[test]
fn a_nonce_binds_the_seed_and_the_secret() {
    let secret = scalar(1234);
    let seed = [7u8; 32];
    let mut input = seed.to_vec();
    input.extend(P256::F_to_bytes(&secret));
    assert_eq!(
        P256::nonce_from_seed(secret, &seed),
        P256::hash_to_F(b"FROST-P256-SHA256-v5nonce", &input)
    );
    assert_ne!(P256::nonce_from_seed(secret, &seed), P256::nonce_from_seed(scalar(1235), &seed));
    assert_ne!(P256::nonce_from_seed(secret, &seed), P256::nonce_from_seed(secret, &[8u8; 32]));
}

#[test]
fn random_nonces_differ() {
    let secret = scalar(1234);
    assert_ne!(P256::random_nonce(secret, &mut OsRng), P256::random_nonce(secret, &mut OsRng));
    assert_ne!(P256::f_random(&mut OsRng), P256::f_random(&mut OsRng));
}

#[test]
fn multiexp_adds_the_multiples() {
    let mut pairs: Vec<(Scalar, Point)> = vec![];
    let mut sum = P256::g_mul(P256::generator(), scalar(0));
    for _ in 0..20 {
        let pair = (P256::f_random(&mut OsRng), P256::g_mul(P256::generator(), P256::f_random(&mut OsRng)));
        sum = P256::g_add(sum, P256::g_mul(pair.1, pair.0));
        pairs.push(pair);
        assert_eq!(P256::multiexp_vartime(&pairs), sum);
    }
    let pairs = vec![(Secp256k1::f_from_u64(3), Secp256k1::generator()), (Secp256k1::f_from_u64(4), Secp256k1::generator())];
    assert_eq!(
        Secp256k1::multiexp_vartime(&pairs),
        Secp256k1::g_mul(Secp256k1::generator(), Secp256k1::f_from_u64(7))
    );
}

#[test]
fn a_batch_passes_and_blames() {
    let g = P256::generator();
    // 2·G + (-2)·G is the identity; 2·G + (-3)·G is not
    let holds = vec![(scalar(2), g), (P256::f_neg(scalar(2)), g)];
    let fails = vec![(scalar(2), g), (P256::f_neg(scalar(3)), g)];

    let mut batch = P256::batch_new(3);
    P256::batch_queue(&mut batch, &mut OsRng, 1, holds.clone());
    P256::batch_queue(&mut batch, &mut OsRng, 2, holds.clone());
    assert_eq!(P256::batch_verify(&batch), Ok(()));
    assert_eq!(P256::batch_verify_vartime(&batch), Ok(()));

    P256::batch_queue(&mut batch, &mut OsRng, 3, fails);
    P256::batch_queue(&mut batch, &mut OsRng, 4, holds);
    assert_eq!(P256::batch_verify(&batch), Err(3));
    assert_eq!(P256::batch_verify_vartime(&batch), Err(3));
}

#[test]
fn a_batch_of_one_statement_is_checked_as_it_stands() {
    let g = P256::generator();
    // 5·G + (-5)·G is the identity
    let mut batch = P256::batch_new(1);
    P256::batch_queue(&mut batch, &mut OsRng, 7, vec![(scalar(5), g), (P256::f_neg(scalar(5)), g)]);
    assert_eq!(P256::batch_verify(&batch), Ok(()));
    assert_eq!(P256::batch_verify_vartime(&batch), Ok(()));

    // 5·G + (-4)·G is G
    let mut batch = P256::batch_new(1);
    P256::batch_queue(&mut batch, &mut OsRng, 7, vec![(scalar(5), g), (P256::f_neg(scalar(4)), g)]);
    assert_eq!(P256::batch_verify(&batch), Err(7));
    assert_eq!(P256::batch_verify_vartime(&batch), Err(7));
}

#[test]
fn a_batch_on_secp256k1_passes_and_blames() {
    let g = Secp256k1::generator();
    let two = Secp256k1::f_from_u64(2);
    let three = Secp256k1::f_from_u64(3);
    let holds = vec![(two, g), (Secp256k1::f_neg(two), g)];
    let fails = vec![(two, g), (Secp256k1::f_neg(three), g)];

    let mut batch = Secp256k1::batch_new(4);
    Secp256k1::batch_queue(&mut batch, &mut OsRng, 1, holds.clone());
    Secp256k1::batch_queue(&mut batch, &mut OsRng, 2, holds.clone());
    assert_eq!(Secp256k1::batch_verify(&batch), Ok(()));
    assert_eq!(Secp256k1::batch_verify_vartime(&batch), Ok(()));

    Secp256k1::batch_queue(&mut batch, &mut OsRng, 3, holds);
    Secp256k1::batch_queue(&mut batch, &mut OsRng, 4, fails);
    assert_eq!(Secp256k1::batch_verify(&batch), Err(4));
    assert_eq!(Secp256k1::batch_verify_vartime(&batch), Err(4));
}
