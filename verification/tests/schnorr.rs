use rand_core::OsRng;

use frost::curve::kp256::{Secp256k1, P256};
use frost::curve::Curve;
use frost::schnorr::{batch_verify, respond, sign, verify, SchnorrSignature};

#[test]
fn a_signature_is_the_nonce_commitment_and_the_response() {
    let x = P256::f_from_u64(11);
    let r = P256::f_from_u64(5);
    let c = P256::f_from_u64(3);
    let signature = sign::<P256>(x, r, c);
    assert_eq!(signature.R, P256::g_mul(P256::generator(), r));
    // 5 + 11 * 3
    assert_eq!(signature.s, P256::f_from_u64(38));
    assert_eq!(respond::<P256>(x, r, c), P256::f_from_u64(38));
}

#[test]
fn a_signature_is_serialized_as_its_two_parts() {
    let signature = sign::<P256>(P256::f_from_u64(11), P256::f_from_u64(5), P256::f_from_u64(3));
    let mut expected = P256::G_to_bytes(&signature.R);
    expected.extend(P256::F_to_bytes(&signature.s));
    assert_eq!(signature.serialize(), expected);
    assert_eq!(signature.serialize().len(), 65);
}

#[test]
fn sign_and_verify() {
    for _ in 0..5 {
        let x = P256::f_random(&mut OsRng);
        let key = P256::g_mul(P256::generator(), x);
        let c = P256::f_random(&mut OsRng);
        let signature = sign::<P256>(x, P256::f_random(&mut OsRng), c);
        assert!(verify::<P256>(key, c, &signature));

        let x = Secp256k1::f_random(&mut OsRng);
        let key = Secp256k1::g_mul(Secp256k1::generator(), x);
        let c = Secp256k1::f_random(&mut OsRng);
        let signature = sign::<Secp256k1>(x, Secp256k1::f_random(&mut OsRng), c);
        assert!(verify::<Secp256k1>(key, c, &signature));
    }
}

#[test]
fn verify_refuses_what_was_not_signed() {
    let x = P256::f_random(&mut OsRng);
    let key = P256::g_mul(P256::generator(), x);
    let c = P256::f_random(&mut OsRng);
    let signature = sign::<P256>(x, P256::f_random(&mut OsRng), c);

    // another challenge
    assert!(!verify::<P256>(key, P256::f_add(c, P256::f_from_u64(1)), &signature));
    // another key
    assert!(!verify::<P256>(P256::g_add(key, P256::generator()), c, &signature));
    // another response
    let altered = SchnorrSignature::<P256> {
        R: signature.R,
        s: P256::f_add(signature.s, P256::f_from_u64(1)),
    };
    assert!(!verify::<P256>(key, c, &altered));
    // another nonce commitment
    let altered = SchnorrSignature::<P256> {
        R: P256::g_add(signature.R, P256::generator()),
        s: signature.s,
    };
    assert!(!verify::<P256>(key, c, &altered));
}

#[test]
fn a_zero_challenge_is_valid_under_every_key() {
    let c = P256::f_from_u64(0);
    let signature = sign::<P256>(P256::f_from_u64(9), P256::f_from_u64(4), c);
    assert!(verify::<P256>(P256::generator(), c, &signature));
    assert!(verify::<P256>(P256::g_mul(P256::generator(), P256::f_from_u64(77)), c, &signature));
}

fn triplets(count: u16) -> Vec<(u16, frost::curve::kp256::Point, frost::curve::kp256::Scalar, SchnorrSignature<P256>)> {
    let mut res = vec![];
    for id in 1..=count {
        let x = P256::f_random(&mut OsRng);
        let c = P256::f_random(&mut OsRng);
        res.push((
            id,
            P256::g_mul(P256::generator(), x),
            c,
            sign::<P256>(x, P256::f_random(&mut OsRng), c),
        ));
    }
    res
}

#[test]
fn batch_verify_accepts_valid_signatures() {
    assert_eq!(batch_verify::<P256>(&mut OsRng, &triplets(5)), Ok(()));
    assert_eq!(batch_verify::<P256>(&mut OsRng, &triplets(1)), Ok(()));
}

#[test]
fn batch_verify_accepts_no_signatures() {
    assert_eq!(batch_verify::<P256>(&mut OsRng, &[]), Ok(()));
}

#[test]
fn batch_verify_blames_the_invalid_signature() {
    for bad in 1..=5u16 {
        let mut batch = triplets(5);
        let index = usize::from(bad - 1);
        batch[index].3.s = P256::f_add(batch[index].3.s, P256::f_from_u64(1));
        assert_eq!(batch_verify::<P256>(&mut OsRng, &batch), Err(bad));
        // the batch and the single check agree
        for triplet in &batch {
            assert_eq!(verify::<P256>(triplet.1, triplet.2, &triplet.3), triplet.0 != bad);
        }
    }
}

#[test]
fn batch_verify_blames_an_invalid_signature_among_several() {
    let mut batch = triplets(6);
    batch[1].2 = P256::f_add(batch[1].2, P256::f_from_u64(1));
    batch[4].1 = P256::g_add(batch[4].1, P256::generator());
    let blamed = batch_verify::<P256>(&mut OsRng, &batch).unwrap_err();
    assert!(blamed == 2 || blamed == 5);
}

#[test]
fn a_batch_of_one_agrees_with_the_single_check() {
    let mut batch = triplets(1);
    assert!(verify::<P256>(batch[0].1, batch[0].2, &batch[0].3));
    assert_eq!(batch_verify::<P256>(&mut OsRng, &batch), Ok(()));

    batch[0].3.R = P256::g_add(batch[0].3.R, P256::generator());
    assert!(!verify::<P256>(batch[0].1, batch[0].2, &batch[0].3));
    assert_eq!(batch_verify::<P256>(&mut OsRng, &batch), Err(1));
}
