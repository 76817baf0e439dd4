use blake2::{Blake2b512, Digest};
use curve25519_dalek::constants::ED25519_BASEPOINT_POINT;
use curve25519_dalek::{EdwardsPoint, Scalar};

use frost::clsag::ed25519_ops::{EdPoint, EdScalar};
use frost::clsag::{decode_point, decode_scalar, Addendum, ClsagCore, Multisig};
use frost::FrostError;

fn scalar(x: u64) -> EdScalar {
    EdScalar { repr: Scalar::from(x).to_bytes() }
}

fn wrapped(s: Scalar) -> EdScalar {
    EdScalar { repr: s.to_bytes() }
}

fn inner(s: EdScalar) -> Scalar {
    Scalar::from_canonical_bytes(s.repr).unwrap()
}

fn point(p: EdwardsPoint) -> EdPoint {
    EdPoint { repr: p.compress().to_bytes() }
}

fn multiple(x: u64) -> EdwardsPoint {
    ED25519_BASEPOINT_POINT * Scalar::from(x)
}

fn addendum(alt: EdwardsPoint, d: u64, e: u64) -> Addendum {
    let images = Multisig::nonce_images(point(alt), &(scalar(d), scalar(e)));
    Addendum { images, proofs: (vec![1u8; 64], vec![2u8; 64]) }
}

#[test]
fn the_context_is_the_message_and_the_input() {
    let algorithm = Multisig::new([7u8; 32], b"input".to_vec());
    let mut expected = vec![7u8; 32];
    expected.extend(b"input");
    assert_eq!(algorithm.context(), expected);
    assert_eq!(Multisig::addendum_commit_len(), 192);
}

#[test]
fn the_images_are_the_nonces_on_the_other_base() {
    let alt = multiple(5);
    let images = Multisig::nonce_images(point(alt), &(scalar(3), scalar(4)));
    assert_eq!(images.0, point(multiple(15)));
    assert_eq!(images.1, point(multiple(20)));
}

#[test]
fn an_addendum_is_read_as_written() {
    let written = addendum(multiple(5), 3, 4);
    let serialized = Multisig::preprocess_addendum(&written);
    assert_eq!(serialized.len(), 192);
    assert_eq!(&serialized[..32], &point(multiple(15)).repr);
    assert_eq!(&serialized[32..64], &point(multiple(20)).repr);
    assert_eq!(&serialized[64..128], &[1u8; 64]);
    assert_eq!(&serialized[128..], &[2u8; 64]);
    let read = Multisig::read_addendum(3, &serialized).unwrap();
    assert_eq!(read.images, written.images);
    assert_eq!(read.proofs, written.proofs);
}

#[test]
fn an_addendum_of_another_length_is_blamed() {
    let serialized = Multisig::preprocess_addendum(&addendum(multiple(5), 3, 4));
    for len in [0usize, 64, 191] {
        assert!(matches!(
            Multisig::read_addendum(3, &serialized[..len]),
            Err(FrostError::InvalidCommitment(3))
        ));
    }
    let mut longer = serialized.clone();
    longer.push(0);
    assert!(matches!(
        Multisig::read_addendum(4, &longer),
        Err(FrostError::InvalidCommitment(4))
    ));
}

#[test]
fn an_image_that_is_no_point_is_blamed() {
    let serialized = Multisig::preprocess_addendum(&addendum(multiple(5), 3, 4));
    // a second coordinate that no point of the curve has
    let mut other = serialized.clone();
    other[..32].copy_from_slice(&[2u8; 32]);
    assert!(Multisig::read_addendum(3, &other).is_err() || decode_point(&[2u8; 32]).is_some());
    // a point of order two, outside the prime-order subgroup
    let mut torsion = [0xffu8; 32];
    torsion[0] = 0xec;
    torsion[31] = 0x7f;
    assert!(decode_point(&torsion).is_none());
    let mut other = serialized.clone();
    other[32..64].copy_from_slice(&torsion);
    assert!(matches!(
        Multisig::read_addendum(3, &other),
        Err(FrostError::InvalidCommitment(3))
    ));
    // another encoding of the identity: the second coordinate plus the field's modulus
    let mut unreduced = [0xffu8; 32];
    unreduced[0] = 0xee;
    unreduced[31] = 0x7f;
    assert!(decode_point(&unreduced).is_none());
    // the identity itself is a point of the subgroup
    let mut identity = [0u8; 32];
    identity[0] = 1;
    assert_eq!(decode_point(&identity).unwrap().repr, identity);
    assert_eq!(decode_point(&point(multiple(9)).repr).unwrap(), point(multiple(9)));
}

#[test]
fn addenda_are_added_up() {
    let alt = multiple(5);
    let mut algorithm = Multisig::new([7u8; 32], vec![]);
    let mut identity = [0u8; 32];
    identity[0] = 1;
    assert_eq!(algorithm.nonce_image_sum().repr, identity);

    let first = addendum(alt, 3, 4);
    assert!(algorithm.process_addendum(1, &scalar(10), &first, true).is_ok());
    // 5 * 3 + 10 * 5 * 4
    assert_eq!(algorithm.nonce_image_sum(), point(multiple(215)));

    let second = addendum(alt, 6, 7);
    assert!(algorithm.process_addendum(3, &scalar(2), &second, true).is_ok());
    // 215 + 5 * 6 + 2 * 5 * 7
    assert_eq!(algorithm.nonce_image_sum(), point(multiple(315)));

    // what was agreed on seeds the randomness
    let mut agreed = b"clsag_randomness".to_vec();
    agreed.extend([0u8, 1]);
    agreed.extend(first.images.0.repr);
    agreed.extend(first.images.1.repr);
    agreed.extend([0u8, 3]);
    agreed.extend(second.images.0.repr);
    agreed.extend(second.images.1.repr);
    let rand = Blake2b512::digest(&agreed).to_vec();
    let (mask, seed) = algorithm.randomness();
    let mut first_half = [0u8; 32];
    first_half.copy_from_slice(&rand[..32]);
    assert_eq!(inner(mask), Scalar::from_bytes_mod_order(first_half));
    assert_eq!(seed, rand[32..].to_vec());
}

#[test]
fn an_addendum_with_an_invalid_proof_is_blamed() {
    let alt = multiple(5);
    let mut algorithm = Multisig::new([7u8; 32], vec![]);
    assert!(algorithm.process_addendum(1, &scalar(10), &addendum(alt, 3, 4), true).is_ok());
    let before = (algorithm.nonce_image_sum(), algorithm.randomness());
    assert!(matches!(
        algorithm.process_addendum(2, &scalar(10), &addendum(alt, 6, 7), false),
        Err(FrostError::InvalidCommitment(2))
    ));
    assert_eq!((algorithm.nonce_image_sum(), algorithm.randomness()), before);
}

#[test]
fn the_randomness_is_agreed_on() {
    let alt = multiple(5);
    let mut first = Multisig::new([7u8; 32], vec![]);
    let mut second = Multisig::new([7u8; 32], b"another input".to_vec());
    for algorithm in [&mut first, &mut second] {
        assert!(algorithm.process_addendum(1, &scalar(10), &addendum(alt, 3, 4), true).is_ok());
        assert!(algorithm.process_addendum(2, &scalar(11), &addendum(alt, 6, 7), true).is_ok());
    }
    assert_eq!(first.randomness(), second.randomness());
    let mut third = Multisig::new([7u8; 32], vec![]);
    assert!(third.process_addendum(1, &scalar(10), &addendum(alt, 3, 4), true).is_ok());
    assert!(third.process_addendum(2, &scalar(11), &addendum(alt, 6, 8), true).is_ok());
    assert_ne!(first.randomness(), third.randomness());
    // before any addendum, the digest of the label alone
    let rand = Blake2b512::digest(b"clsag_randomness").to_vec();
    assert_eq!(Multisig::new([0u8; 32], vec![]).randomness().1, rand[32..].to_vec());
}

fn results() -> ClsagCore {
    ClsagCore { c: scalar(11), mu_C: scalar(13), mu_P: scalar(17), z: scalar(19) }
}

#[test]
fn a_single_signer_makes_the_whole_response() {
    // with one participant, the response is that of the signature made alone:
    // r - c * (mu_P * x + mu_C * z)
    let x = Scalar::from(1234u64);
    let r = Scalar::from(99999u64);
    let mut algorithm = Multisig::new([7u8; 32], vec![]);
    assert!(algorithm.verify(wrapped(r)).is_none());
    let share = algorithm.sign_share(wrapped(x), wrapped(r), &results());
    assert_eq!(inner(share), r - Scalar::from(11u64 * 17) * x);
    let response = algorithm.verify(share).unwrap();
    assert_eq!(
        inner(response),
        r - Scalar::from(11u64) * (Scalar::from(17u64) * x + Scalar::from(13u64 * 19))
    );
}

#[test]
fn two_of_three_make_the_response() {
    // the shares of the secret 100 + 7x, weighted for the signing set 1, 3
    let secret = Scalar::from(100u64);
    let weights = [
        Scalar::from(3u64) * Scalar::from(2u64).invert(),
        -Scalar::from(2u64).invert(),
    ];
    let shares = [Scalar::from(107u64) * weights[0], Scalar::from(121u64) * weights[1]];
    assert_eq!(shares[0] + shares[1], secret);
    let nonces = [Scalar::from(555u64), Scalar::from(777u64)];

    let mut sum = Scalar::from(0u64);
    let mut algorithms = vec![];
    for k in 0..2 {
        let mut algorithm = Multisig::new([7u8; 32], vec![]);
        let share = algorithm.sign_share(wrapped(shares[k]), wrapped(nonces[k]), &results());
        sum += inner(share);
        algorithms.push((algorithm, share));
    }
    // each share is valid for its sender's verification share and nonce commitment
    for k in 0..2 {
        let verification_share = point(ED25519_BASEPOINT_POINT * shares[k]);
        let nonce = point(ED25519_BASEPOINT_POINT * nonces[k]);
        let other = 1 - k;
        assert!(algorithms[other].0.verify_share(verification_share, nonce, algorithms[k].1));
        assert!(!algorithms[other].0.verify_share(
            verification_share,
            nonce,
            wrapped(inner(algorithms[k].1) + Scalar::from(1u64))
        ));
        assert!(!algorithms[other].0.verify_share(
            point(multiple(3)),
            nonce,
            algorithms[k].1
        ));
    }
    let response = algorithms[0].0.verify(wrapped(sum)).unwrap();
    assert_eq!(
        inner(response),
        (nonces[0] + nonces[1])
            - Scalar::from(11u64) * (Scalar::from(17u64) * secret + Scalar::from(13u64 * 19))
    );
}

#[test]
fn scalars_are_decoded_where_reduced() {
    assert_eq!(decode_scalar(&scalar(77).repr), Some(scalar(77)));
    // the order itself, and the order less one
    let order = hex::decode("edd3f55c1a631258d69cf7a2def9de1400000000000000000000000000000010")
        .unwrap();
    assert!(decode_scalar(&order).is_none());
    let mut below = order.clone();
    below[0] -= 1;
    assert_eq!(decode_scalar(&below).map(inner), Some(-Scalar::from(1u64)));
    assert!(decode_scalar(&[0xff; 32]).is_none());
}

#[test]
fn no_share_is_valid_before_signing() {
    let algorithm = Multisig::new([7u8; 32], vec![]);
    assert!(!algorithm.verify_share(point(multiple(3)), point(multiple(3)), scalar(0)));
}

#[test]
fn an_image_that_is_the_identity_is_blamed() {
    let serialized = Multisig::preprocess_addendum(&addendum(multiple(5), 3, 4));
    let mut identity = [0u8; 32];
    identity[0] = 1;
    let mut first = serialized.clone();
    first[..32].copy_from_slice(&identity);
    assert!(matches!(
        Multisig::read_addendum(2, &first),
        Err(FrostError::InvalidCommitment(2))
    ));
    let mut second = serialized.clone();
    second[32..64].copy_from_slice(&identity);
    assert!(matches!(
        Multisig::read_addendum(4, &second),
        Err(FrostError::InvalidCommitment(4))
    ));
    assert!(Multisig::read_addendum(4, &serialized).is_ok());
}
