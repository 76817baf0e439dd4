use std::collections::HashMap;

use rand_core::OsRng;

use frost::curve::kp256::{Scalar, Secp256k1, P256};
use frost::curve::Curve;
use frost::key_gen::{
    challenge, commit_coefficients, complete_r2, exponential, generate_key_r1, generate_key_r2,
    participants, polynomial, proofs_checked, share_check, shares_checked, verify_r1,
    KeyGenMachine, KeyMachine, SecretShareMachine,
};
use frost::schnorr::{verify, SchnorrSignature};
use frost::{lagrange, FrostError, MultisigKeys, MultisigParams};

const CONTEXT: &str = "FROST Test key_gen";

fn scalar(x: u64) -> Scalar {
    P256::f_from_u64(x)
}

fn round1<C: Curve>(
    t: u16,
    n: u16,
) -> (HashMap<u16, SecretShareMachine<C>>, HashMap<u16, Vec<u8>>) {
    let mut machines = HashMap::new();
    let mut commitments = HashMap::new();
    for i in 1..=n {
        let machine =
            KeyGenMachine::<C>::new(MultisigParams::new(t, n, i).unwrap(), CONTEXT.to_string());
        let (machine, these) = machine.generate_coefficients(&mut OsRng);
        machines.insert(i, machine);
        commitments.insert(i, these);
    }
    (machines, commitments)
}

fn round2<C: Curve>(
    machines: HashMap<u16, SecretShareMachine<C>>,
    commitments: &HashMap<u16, Vec<u8>>,
) -> (HashMap<u16, KeyMachine<C>>, HashMap<u16, HashMap<u16, Vec<u8>>>) {
    let mut key_machines = HashMap::new();
    let mut secret_shares = HashMap::new();
    for (i, machine) in machines {
        let mut others = commitments.clone();
        others.remove(&i);
        let (machine, shares) = match machine.generate_secret_shares(&mut OsRng, others) {
            Ok(res) => res,
            Err(_) => panic!("honest commitments were refused"),
        };
        key_machines.insert(i, machine);
        secret_shares.insert(i, shares);
    }
    (key_machines, secret_shares)
}

fn shares_for(i: u16, secret_shares: &HashMap<u16, HashMap<u16, Vec<u8>>>) -> HashMap<u16, Vec<u8>> {
    let mut ours = HashMap::new();
    for (l, shares) in secret_shares {
        if i != *l {
            ours.insert(*l, shares[&i].clone());
        }
    }
    ours
}

fn key_gen<C: Curve>(t: u16, n: u16) -> HashMap<u16, MultisigKeys<C>> {
    let (machines, commitments) = round1::<C>(t, n);
    let (key_machines, secret_shares) = round2::<C>(machines, &commitments);
    let mut keys = HashMap::new();
    for (i, machine) in key_machines {
        match machine.complete(&mut OsRng, shares_for(i, &secret_shares)) {
            Ok(these) => {
                keys.insert(i, these);
            }
            Err(_) => panic!("honest shares were refused"),
        }
    }
    keys
}

#[test]
fn key_generation_p256() {
    for (t, n) in [(1u16, 1u16), (1, 2), (2, 2), (2, 3), (3, 5), (5, 5)] {
        let keys = key_gen::<P256>(t, n);
        assert_eq!(keys.len(), usize::from(n));
        for i in 1..=n {
            let these = &keys[&i];
            assert_eq!(these.params(), MultisigParams::new(t, n, i).unwrap());
            // everyone agrees on the group key and on the verification shares
            assert_eq!(these.group_key(), keys[&1].group_key());
            assert_eq!(these.verification_shares(), keys[&1].verification_shares());
            assert_eq!(these.verification_shares().len(), usize::from(n));
            // the secret share is the one that its verification share is for
            assert_eq!(
                P256::g_mul(P256::generator(), these.secret_share()),
                these.verification_shares()[&i]
            );
        }
    }
}

#[test]
fn key_generation_secp256k1() {
    let keys = key_gen::<Secp256k1>(3, 4);
    for i in 1..=4u16 {
        assert_eq!(keys[&i].group_key(), keys[&1].group_key());
        assert_eq!(keys[&i].verification_shares(), keys[&1].verification_shares());
        assert_eq!(
            Secp256k1::g_mul(Secp256k1::generator(), keys[&i].secret_share()),
            keys[&i].verification_shares()[&i]
        );
    }
}

#[test]
fn generated_keys_serialize() {
    for (_, keys) in key_gen::<P256>(2, 3) {
        let read = match MultisigKeys::<P256>::deserialize(&keys.serialize()) {
            Ok(read) => read,
            Err(_) => panic!("generated keys were refused"),
        };
        assert_eq!(read.params(), keys.params());
        assert_eq!(read.secret_share(), keys.secret_share());
        assert_eq!(read.group_key(), keys.group_key());
        assert_eq!(read.verification_shares(), keys.verification_shares());
        assert_eq!(&read, &keys);
        assert_eq!(read.clone(), keys);
        // offset keys are read back without their offset
        let moved = keys.offset(P256::f_from_u64(5));
        let read = match MultisigKeys::<P256>::deserialize(&moved.serialize()) {
            Ok(read) => read,
            Err(_) => panic!("offset keys were refused"),
        };
        assert_ne!(read, moved);
        assert_eq!(read.group_key(), moved.group_key());
    }
}

#[test]
fn any_threshold_of_shares_recovers_the_group_secret() {
    let keys = key_gen::<P256>(3, 5);
    for set in [[1u16, 2, 3], [1, 3, 5], [2, 4, 5], [3, 4, 5]] {
        let mut secret = scalar(0);
        for l in set {
            secret = P256::f_add(
                secret,
                P256::f_mul(keys[&l].secret_share(), lagrange::<P256>(l, &set)),
            );
        }
        assert_eq!(P256::g_mul(P256::generator(), secret), keys[&1].group_key());
    }
    // more than the threshold recover it too
    let set = [1u16, 2, 3, 4, 5];
    let mut secret = scalar(0);
    for l in set {
        secret =
            P256::f_add(secret, P256::f_mul(keys[&l].secret_share(), lagrange::<P256>(l, &set)));
    }
    assert_eq!(P256::g_mul(P256::generator(), secret), keys[&1].group_key());
    // less than the threshold do not
    let set = [1u16, 2];
    let mut secret = scalar(0);
    for l in set {
        secret =
            P256::f_add(secret, P256::f_mul(keys[&l].secret_share(), lagrange::<P256>(l, &set)));
    }
    assert_ne!(P256::g_mul(P256::generator(), secret), keys[&1].group_key());
}

#[test]
fn polynomial_is_evaluated() {
    // 100 + 7x + 3x²
    let coefficients = [scalar(100), scalar(7), scalar(3)];
    assert_eq!(polynomial::<P256>(&coefficients, 0), scalar(100));
    assert_eq!(polynomial::<P256>(&coefficients, 1), scalar(110));
    assert_eq!(polynomial::<P256>(&coefficients, 2), scalar(126));
    assert_eq!(polynomial::<P256>(&coefficients, 3), scalar(148));
    assert_eq!(polynomial::<P256>(&coefficients, 65535), scalar(100 + 7 * 65535 + 3 * 65535 * 65535));
    assert_eq!(polynomial::<P256>(&[scalar(9)], 4), scalar(9));
    assert_eq!(polynomial::<P256>(&[], 4), scalar(0));
}

#[test]
fn exponential_pairs_the_powers() {
    let g = P256::generator();
    let values = [g, P256::g_mul(g, scalar(2)), P256::g_mul(g, scalar(3))];
    let pairs = exponential::<P256>(5, &values);
    assert_eq!(pairs.len(), 3);
    assert_eq!(pairs[0], (scalar(1), values[0]));
    assert_eq!(pairs[1], (scalar(5), values[1]));
    assert_eq!(pairs[2], (scalar(25), values[2]));
    // 1 + 5 * 2 + 25 * 3
    assert_eq!(P256::multiexp_vartime(&pairs), P256::g_mul(g, scalar(86)));
}

#[test]
fn a_share_is_checked_against_its_commitments() {
    // the commitments to 100 + 7x, and the share of the participant 3
    let g = P256::generator();
    let commitments = [P256::g_mul(g, scalar(100)), P256::g_mul(g, scalar(7))];
    let pairs = share_check::<P256>(3, &commitments, scalar(121));
    assert_eq!(pairs.len(), 3);
    assert_eq!(pairs[0], (scalar(1), commitments[0]));
    assert_eq!(pairs[1], (scalar(3), commitments[1]));
    assert_eq!(pairs[2], (P256::f_neg(scalar(121)), g));
    // 100 + 3 * 7 - 121
    assert_eq!(P256::multiexp_vartime(&pairs), P256::g_mul(g, scalar(0)));
    let other = share_check::<P256>(3, &commitments, scalar(122));
    assert_ne!(P256::multiexp_vartime(&other), P256::g_mul(g, scalar(0)));
}

#[test]
fn a_blamed_participant_is_named() {
    assert!(matches!(proofs_checked(Ok(()), 7u8), Ok(7)));
    assert!(matches!(
        proofs_checked(Err(3), 7u8),
        Err(FrostError::InvalidProofOfKnowledge(3))
    ));
    assert!(shares_checked(Ok(())).is_ok());
    assert!(matches!(shares_checked(Err(4)), Err(FrostError::InvalidCommitment(4))));
}

#[test]
fn participants_are_numbered_from_one() {
    assert_eq!(participants(3), vec![1u16, 2, 3]);
    assert_eq!(participants(0), Vec::<u16>::new());
    assert_eq!(participants(65535).len(), 65535);
}

#[test]
fn the_challenge_is_hashed_of_the_transcript() {
    let mut transcript = P256::hash_msg(CONTEXT.as_bytes());
    transcript.extend(7u16.to_be_bytes());
    transcript.extend(b"nonce commitment");
    transcript.extend(b"commitments");
    assert_eq!(
        challenge::<P256>(CONTEXT, 7, b"nonce commitment", b"commitments"),
        P256::hash_to_F(b"FROST Schnorr Proof of Knowledge", &transcript)
    );
    assert_ne!(
        challenge::<P256>(CONTEXT, 7, b"nonce commitment", b"commitments"),
        challenge::<P256>(CONTEXT, 8, b"nonce commitment", b"commitments")
    );
}

#[test]
fn the_first_message_holds_commitments_and_a_proof() {
    let params = MultisigParams::new(3, 5, 2).unwrap();
    let coefficients = vec![scalar(100), scalar(7), scalar(3)];
    let r = scalar(55);
    let message = commit_coefficients::<P256>(&params, CONTEXT, &coefficients, r);
    assert_eq!(message.len(), 3 * 33 + 33 + 32);
    for (k, coefficient) in coefficients.iter().enumerate() {
        assert_eq!(
            &message[k * 33..(k + 1) * 33],
            &P256::G_to_bytes(&P256::g_mul(P256::generator(), *coefficient))[..]
        );
    }
    let nonce = P256::G_from_slice(&message[99..132]).unwrap();
    assert_eq!(nonce, P256::g_mul(P256::generator(), r));
    let response = P256::F_from_slice(&message[132..]).unwrap();
    let c = challenge::<P256>(CONTEXT, 2, &message[99..132], &message[..99]);
    // r + a_0 * c
    assert_eq!(response, P256::f_add(r, P256::f_mul(scalar(100), c)));
    assert!(verify::<P256>(
        P256::g_mul(P256::generator(), scalar(100)),
        c,
        &SchnorrSignature::<P256> { R: nonce, s: response }
    ));
}

#[test]
fn round_one_draws_the_coefficients() {
    let params = MultisigParams::new(3, 5, 2).unwrap();
    let (coefficients, message) = generate_key_r1::<P256>(&mut OsRng, &params, CONTEXT);
    assert_eq!(coefficients.len(), 3);
    assert_eq!(message.len(), 3 * 33 + 33 + 32);
    assert_eq!(
        &message[..33],
        &P256::G_to_bytes(&P256::g_mul(P256::generator(), coefficients[0]))[..]
    );
    let (others, _) = generate_key_r1::<P256>(&mut OsRng, &params, CONTEXT);
    assert_ne!(coefficients, others);
}

#[test]
fn round_two_hands_out_the_polynomial() {
    let params = MultisigParams::new(2, 3, 2).unwrap();
    let coefficients = vec![scalar(100), scalar(7)];
    let ours = commit_coefficients::<P256>(&params, CONTEXT, &coefficients, scalar(55));
    let mut others = HashMap::new();
    for l in [1u16, 3] {
        let params = MultisigParams::new(2, 3, l).unwrap();
        let (_, message) = generate_key_r1::<P256>(&mut OsRng, &params, CONTEXT);
        others.insert(l, message);
    }
    let (share, commitments, shares) =
        match generate_key_r2::<P256>(&mut OsRng, &params, CONTEXT, coefficients, ours, others) {
            Ok(res) => res,
            Err(_) => panic!("honest commitments were refused"),
        };
    assert_eq!(share, scalar(114));
    assert_eq!(commitments.len(), 3);
    assert_eq!(commitments[&2], vec![
        P256::g_mul(P256::generator(), scalar(100)),
        P256::g_mul(P256::generator(), scalar(7))
    ]);
    assert_eq!(shares.len(), 2);
    assert_eq!(shares[&1], P256::F_to_bytes(&scalar(107)));
    assert_eq!(shares[&3], P256::F_to_bytes(&scalar(121)));
}

fn proof_of_knowledge_error(r: Result<HashMap<u16, Vec<frost::curve::kp256::Point>>, FrostError>) -> FrostError {
    match r {
        Ok(_) => panic!("faulty commitments were accepted"),
        Err(e) => e,
    }
}

#[test]
fn a_corrupted_proof_of_knowledge_is_blamed() {
    for byte in [66usize, 80, 99, 130] {
        let (machines, mut commitments) = round1::<P256>(2, 3);
        // flip one byte of the proof of knowledge of the participant 2
        commitments.get_mut(&2).unwrap()[byte] ^= 1;
        for (i, machine) in machines {
            let mut others = commitments.clone();
            others.remove(&i);
            let res = machine.generate_secret_shares(&mut OsRng, others);
            if i == 2 {
                // a participant does not check its own proof
                assert!(res.is_ok());
            } else {
                assert!(matches!(res, Err(FrostError::InvalidProofOfKnowledge(2))));
            }
        }
    }
}

#[test]
fn a_proof_of_knowledge_of_another_participant_is_blamed() {
    // the proof of the participant 3, sent in the name of the participant 2
    let (_, commitments) = round1::<P256>(2, 3);
    let params = MultisigParams::new(2, 3, 1).unwrap();
    let mut others = HashMap::new();
    others.insert(2u16, commitments[&3].clone());
    others.insert(3u16, commitments[&3].clone());
    let res = verify_r1::<P256>(&mut OsRng, &params, CONTEXT, commitments[&1].clone(), others);
    assert!(matches!(proof_of_knowledge_error(res), FrostError::InvalidProofOfKnowledge(2)));
}

#[test]
fn a_proof_of_knowledge_under_another_context_is_blamed() {
    let (_, commitments) = round1::<P256>(2, 2);
    let params = MultisigParams::new(2, 2, 1).unwrap();
    let mut others = HashMap::new();
    others.insert(2u16, commitments[&2].clone());
    let res = verify_r1::<P256>(&mut OsRng, &params, "another context", commitments[&1].clone(), others);
    assert!(matches!(proof_of_knowledge_error(res), FrostError::InvalidProofOfKnowledge(2)));
}

#[test]
fn a_corrupted_commitment_is_blamed() {
    let (_, commitments) = round1::<P256>(2, 3);
    let params = MultisigParams::new(2, 3, 1).unwrap();
    // a tag that no point has
    let mut others = commitments.clone();
    others.remove(&1);
    others.get_mut(&3).unwrap()[33] = 9;
    let res = verify_r1::<P256>(&mut OsRng, &params, CONTEXT, commitments[&1].clone(), others);
    assert!(matches!(proof_of_knowledge_error(res), FrostError::InvalidCommitment(3)));
    // the identity
    let mut others = commitments.clone();
    others.remove(&1);
    for byte in &mut others.get_mut(&2).unwrap()[..33] {
        *byte = 0;
    }
    let res = verify_r1::<P256>(&mut OsRng, &params, CONTEXT, commitments[&1].clone(), others);
    assert!(matches!(proof_of_knowledge_error(res), FrostError::InvalidCommitment(2)));
    // a commitment to another coefficient: the proof of knowledge fails
    let mut others = commitments.clone();
    others.remove(&1);
    let other = P256::G_to_bytes(&P256::g_mul(P256::generator(), scalar(5)));
    others.get_mut(&2).unwrap()[..33].copy_from_slice(&other);
    let res = verify_r1::<P256>(&mut OsRng, &params, CONTEXT, commitments[&1].clone(), others);
    assert!(matches!(proof_of_knowledge_error(res), FrostError::InvalidProofOfKnowledge(2)));
}

#[test]
fn a_short_message_is_blamed() {
    let (_, commitments) = round1::<P256>(2, 3);
    let params = MultisigParams::new(2, 3, 1).unwrap();
    for (len, commitment) in [(0usize, true), (65, true), (66, false), (98, false), (130, false)] {
        let mut others = commitments.clone();
        others.remove(&1);
        others.get_mut(&2).unwrap().truncate(len);
        let res = verify_r1::<P256>(&mut OsRng, &params, CONTEXT, commitments[&1].clone(), others);
        if commitment {
            assert!(matches!(proof_of_knowledge_error(res), FrostError::InvalidCommitment(2)));
        } else {
            assert!(matches!(proof_of_knowledge_error(res), FrostError::InvalidProofOfKnowledge(2)));
        }
    }
    // and a long one
    let mut others = commitments.clone();
    others.remove(&1);
    others.get_mut(&3).unwrap().push(0);
    let res = verify_r1::<P256>(&mut OsRng, &params, CONTEXT, commitments[&1].clone(), others);
    assert!(matches!(proof_of_knowledge_error(res), FrostError::InvalidProofOfKnowledge(3)));
}

#[test]
fn round_one_asks_for_every_participant() {
    let (_, commitments) = round1::<P256>(2, 3);
    let params = MultisigParams::new(2, 3, 1).unwrap();
    let mut others = commitments.clone();
    others.remove(&1);
    others.remove(&3);
    let res = verify_r1::<P256>(&mut OsRng, &params, CONTEXT, commitments[&1].clone(), others);
    assert!(matches!(
        proof_of_knowledge_error(res),
        FrostError::InvalidParticipantQuantity(3, 2)
    ));

    let mut others = commitments.clone();
    others.remove(&1);
    others.remove(&3);
    others.insert(4, commitments[&3].clone());
    let res = verify_r1::<P256>(&mut OsRng, &params, CONTEXT, commitments[&1].clone(), others);
    assert!(matches!(proof_of_knowledge_error(res), FrostError::MissingParticipant(3)));

    let mut others = commitments.clone();
    others.insert(4, commitments[&3].clone());
    let res = verify_r1::<P256>(&mut OsRng, &params, CONTEXT, commitments[&1].clone(), others);
    assert!(matches!(
        proof_of_knowledge_error(res),
        FrostError::InvalidParticipantQuantity(3, 4)
    ));
}

fn keys_error(r: Result<MultisigKeys<P256>, FrostError>) -> FrostError {
    match r {
        Ok(_) => panic!("faulty shares were accepted"),
        Err(e) => e,
    }
}

#[test]
fn a_corrupted_share_is_blamed() {
    let (machines, commitments) = round1::<P256>(2, 3);
    let (mut key_machines, secret_shares) = round2::<P256>(machines, &commitments);

    // another scalar than the one dealt
    let mut ours = shares_for(1, &secret_shares);
    let dealt = P256::F_from_slice(&ours[&3]).unwrap();
    ours.insert(3, P256::F_to_bytes(&P256::f_add(dealt, scalar(1))));
    let res = key_machines.remove(&1).unwrap().complete(&mut OsRng, ours);
    assert!(matches!(keys_error(res), FrostError::InvalidCommitment(3)));

    // no scalar at all
    let mut ours = shares_for(2, &secret_shares);
    ours.insert(3, vec![0xff; 32]);
    let res = key_machines.remove(&2).unwrap().complete(&mut OsRng, ours);
    assert!(matches!(keys_error(res), FrostError::InvalidShare(3)));

    // a share of the wrong length
    let mut ours = shares_for(3, &secret_shares);
    ours.get_mut(&1).unwrap().pop();
    let res = key_machines.remove(&3).unwrap().complete(&mut OsRng, ours);
    assert!(matches!(keys_error(res), FrostError::InvalidShare(1)));
}

#[test]
fn a_share_meant_for_another_is_blamed() {
    let (machines, commitments) = round1::<P256>(2, 3);
    let (mut key_machines, secret_shares) = round2::<P256>(machines, &commitments);
    let mut ours = shares_for(1, &secret_shares);
    // what the participant 2 dealt to the participant 3
    ours.insert(2, secret_shares[&2][&3].clone());
    let res = key_machines.remove(&1).unwrap().complete(&mut OsRng, ours);
    assert!(matches!(keys_error(res), FrostError::InvalidCommitment(2)));
}

#[test]
fn round_two_asks_for_every_share() {
    let (machines, commitments) = round1::<P256>(2, 3);
    let (mut key_machines, secret_shares) = round2::<P256>(machines, &commitments);

    let mut ours = shares_for(1, &secret_shares);
    ours.remove(&2);
    let res = key_machines.remove(&1).unwrap().complete(&mut OsRng, ours);
    assert!(matches!(keys_error(res), FrostError::InvalidParticipantQuantity(3, 2)));

    let mut ours = shares_for(2, &secret_shares);
    let moved = ours.remove(&3).unwrap();
    ours.insert(9, moved);
    let res = key_machines.remove(&2).unwrap().complete(&mut OsRng, ours);
    assert!(matches!(keys_error(res), FrostError::MissingParticipant(3)));
}

#[test]
fn a_secret_that_was_not_dealt_is_an_internal_error() {
    let (_, commitments) = round1::<P256>(1, 1);
    let params = MultisigParams::new(1, 1, 1).unwrap();
    let parsed = match verify_r1::<P256>(&mut OsRng, &params, CONTEXT, commitments[&1].clone(), HashMap::new()) {
        Ok(parsed) => parsed,
        Err(_) => panic!("honest commitments were refused"),
    };
    let res = complete_r2::<P256>(&mut OsRng, params, scalar(1), parsed, HashMap::new());
    match keys_error(res) {
        FrostError::InternalError(why) => {
            assert_eq!(why, "secret share does not match its verification share")
        }
        _ => panic!("another error than an internal one"),
    }
}

#[test]
fn a_single_participant_generates_keys() {
    let keys = key_gen::<P256>(1, 1);
    assert_eq!(
        P256::g_mul(P256::generator(), keys[&1].secret_share()),
        keys[&1].group_key()
    );
    assert_eq!(keys[&1].verification_shares()[&1], keys[&1].group_key());
}

#[test]
fn the_first_fault_checked_is_always_named() {
    // the proof of the first other participant is weighted by 1
    for byte in [66usize, 99] {
        let (machines, mut commitments) = round1::<P256>(2, 3);
        commitments.get_mut(&1).unwrap()[byte] ^= 1;
        for (i, machine) in machines {
            if i == 1 {
                continue;
            }
            let mut others = commitments.clone();
            others.remove(&i);
            let res = machine.generate_secret_shares(&mut OsRng, others);
            assert!(matches!(res, Err(FrostError::InvalidProofOfKnowledge(1))));
        }
    }

    // and so is the share of the first other participant
    let (machines, commitments) = round1::<P256>(2, 2);
    let (mut key_machines, secret_shares) = round2::<P256>(machines, &commitments);
    let mut ours = shares_for(2, &secret_shares);
    let dealt = P256::F_from_slice(&ours[&1]).unwrap();
    ours.insert(1, P256::F_to_bytes(&P256::f_add(dealt, scalar(1))));
    let res = key_machines.remove(&2).unwrap().complete(&mut OsRng, ours);
    assert!(matches!(keys_error(res), FrostError::InvalidCommitment(1)));
}
