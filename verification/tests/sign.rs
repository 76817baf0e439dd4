use std::collections::HashMap;
use std::sync::Arc;

use rand_core::OsRng;

use frost::algorithm::{Algorithm, Hram, Schnorr};
use frost::curve::kp256::{IetfP256Hram, NonIetfSecp256k1Hram, Point, Scalar, Secp256k1, P256};
use frost::curve::Curve;
use frost::schnorr::{verify, SchnorrSignature};
use frost::sign::{
    sort_indices, AlgorithmMachine, AlgorithmSignMachine, AlgorithmSignatureMachine, Params,
    PreprocessPackage,
};
use frost::{lagrange, FrostError, MultisigKeys};

fn scalar(x: u64) -> Scalar {
    P256::f_from_u64(x)
}

// The shares of the secret 100 in the polynomial 100 + 7x + 3x² + 11x³ + 13x⁴, cut to
// as many coefficients as the threshold asks for
fn dealt(threshold: u16, participants: u16) -> HashMap<u16, MultisigKeys<P256>> {
    let coefficients = [100u64, 7, 3, 11, 13];
    let shares: Vec<Scalar> = (1..=u64::from(participants))
        .map(|x| {
            let mut value = 0;
            for k in (0..usize::from(threshold)).rev() {
                value = value * x + coefficients[k];
            }
            scalar(value)
        })
        .collect();
    let mut keys = HashMap::new();
    for i in 1..=participants {
        let mut serialized = vec![];
        serialized.extend(5u64.to_be_bytes());
        serialized.extend(b"P-256");
        serialized.extend(threshold.to_be_bytes());
        serialized.extend(participants.to_be_bytes());
        serialized.extend(i.to_be_bytes());
        serialized.extend(P256::F_to_bytes(&shares[usize::from(i) - 1]));
        serialized.extend(P256::G_to_bytes(&P256::g_mul(P256::generator(), scalar(100))));
        for share in &shares {
            serialized.extend(P256::G_to_bytes(&P256::g_mul(P256::generator(), *share)));
        }
        match MultisigKeys::<P256>::deserialize(&serialized) {
            Ok(these) => {
                keys.insert(i, these);
            }
            Err(_) => panic!("keys made by hand were refused"),
        }
    }
    keys
}

type Machine = AlgorithmMachine<P256, Schnorr<P256, IetfP256Hram>>;
type SignMachine = AlgorithmSignMachine<P256, Schnorr<P256, IetfP256Hram>>;
type SignatureMachine = AlgorithmSignatureMachine<P256, Schnorr<P256, IetfP256Hram>>;

fn machine(keys: &MultisigKeys<P256>, included: &[u16]) -> Result<Machine, FrostError> {
    let serialized = keys.serialize();
    let copy = match MultisigKeys::<P256>::deserialize(&serialized) {
        Ok(copy) => copy,
        Err(_) => panic!("keys were refused"),
    };
    AlgorithmMachine::new(Schnorr::<P256, IetfP256Hram>::new(), Arc::new(copy), included)
}

fn set_error(r: Result<Machine, FrostError>) -> FrostError {
    match r {
        Ok(_) => panic!("a faulty signing set was accepted"),
        Err(e) => e,
    }
}

fn preprocess_all(
    keys: &HashMap<u16, MultisigKeys<P256>>,
    included: &[u16],
) -> (HashMap<u16, SignMachine>, HashMap<u16, Vec<u8>>) {
    let mut machines = HashMap::new();
    let mut preprocesses = HashMap::new();
    for i in included {
        let machine = match machine(&keys[i], included) {
            Ok(machine) => machine,
            Err(_) => panic!("a valid signing set was refused"),
        };
        let (machine, preprocess) = machine.preprocess(&mut OsRng);
        machines.insert(*i, machine);
        preprocesses.insert(*i, preprocess);
    }
    (machines, preprocesses)
}

fn without(map: &HashMap<u16, Vec<u8>>, i: u16) -> HashMap<u16, Vec<u8>> {
    let mut others = map.clone();
    others.remove(&i);
    others
}

fn sign_all(
    machines: HashMap<u16, SignMachine>,
    preprocesses: &HashMap<u16, Vec<u8>>,
    msg: &[u8],
) -> (HashMap<u16, SignatureMachine>, HashMap<u16, Vec<u8>>) {
    let mut signing = HashMap::new();
    let mut shares = HashMap::new();
    for (i, machine) in machines {
        match machine.sign(without(preprocesses, i), msg) {
            Ok((machine, share)) => {
                signing.insert(i, machine);
                shares.insert(i, share);
            }
            Err(_) => panic!("honest preprocesses were refused"),
        }
    }
    (signing, shares)
}

fn sign_with(keys: &HashMap<u16, MultisigKeys<P256>>, included: &[u16], msg: &[u8]) -> SchnorrSignature<P256> {
    let (machines, preprocesses) = preprocess_all(keys, included);
    let (signing, shares) = sign_all(machines, &preprocesses, msg);
    let mut signature: Option<SchnorrSignature<P256>> = None;
    for (i, machine) in signing {
        let this = match machine.complete(without(&shares, i)) {
            Ok(this) => this,
            Err(_) => panic!("honest shares were refused"),
        };
        if let Some(other) = &signature {
            // everyone ends with the same signature
            assert_eq!(this.serialize(), other.serialize());
        }
        signature = Some(this);
    }
    signature.unwrap()
}

fn valid(key: Point, msg: &[u8], signature: &SchnorrSignature<P256>) -> bool {
    let c = IetfP256Hram::hram(&signature.R, &key, msg);
    verify::<P256>(key, c, signature)
}

#[test]
fn indices_are_sorted() {
    assert_eq!(sort_indices(&[3, 1, 2]), vec![1u16, 2, 3]);
    assert_eq!(sort_indices(&[5, 5, 1, 0, 65535, 1]), vec![0u16, 1, 1, 5, 5, 65535]);
    assert_eq!(sort_indices(&[]), Vec::<u16>::new());
    assert_eq!(sort_indices(&[7]), vec![7u16]);
}

#[test]
fn a_signing_set_needs_the_threshold() {
    let keys = dealt(3, 5);
    match set_error(machine(&keys[&1], &[1, 2])) {
        FrostError::InvalidSigningSet(why) => assert_eq!(why, "not enough signers"),
        _ => panic!("another error"),
    }
    match set_error(machine(&keys[&1], &[])) {
        FrostError::InvalidSigningSet(why) => assert_eq!(why, "not enough signers"),
        _ => panic!("another error"),
    }
}

#[test]
fn a_signing_set_needs_indices_in_range() {
    let keys = dealt(3, 5);
    assert!(matches!(
        set_error(machine(&keys[&1], &[1, 2, 0])),
        FrostError::InvalidParticipantIndex(5, 0)
    ));
    assert!(matches!(
        set_error(machine(&keys[&1], &[1, 6, 2])),
        FrostError::InvalidParticipantIndex(5, 6)
    ));
    // the least index is tested first
    assert!(matches!(
        set_error(machine(&keys[&1], &[9, 0, 2])),
        FrostError::InvalidParticipantIndex(5, 0)
    ));
}

#[test]
fn a_signing_set_needs_distinct_indices() {
    let keys = dealt(3, 5);
    assert!(matches!(
        set_error(machine(&keys[&1], &[1, 2, 2])),
        FrostError::DuplicatedIndex(2)
    ));
    assert!(matches!(
        set_error(machine(&keys[&1], &[4, 3, 1, 3, 4])),
        FrostError::DuplicatedIndex(3)
    ));
}

#[test]
fn a_signing_set_needs_the_signer() {
    let keys = dealt(3, 5);
    match set_error(machine(&keys[&1], &[2, 3, 4])) {
        FrostError::InvalidSigningSet(why) => {
            assert_eq!(why, "signing despite not being included")
        }
        _ => panic!("another error"),
    }
}

#[test]
fn a_signing_set_is_sorted() {
    let keys = dealt(3, 5);
    let params = match Params::new(
        Schnorr::<P256, IetfP256Hram>::new(),
        Arc::new(dealt(3, 5).remove(&4).unwrap()),
        &[5, 2, 4],
    ) {
        Ok(params) => params,
        Err(_) => panic!("a valid signing set was refused"),
    };
    assert_eq!(params.view().included(), vec![2u16, 4, 5]);
    assert_eq!(params.multisig_params(), keys[&4].params());
    assert_eq!(params.view().group_key(), keys[&4].group_key());
    assert_eq!(
        params.view().secret_share(),
        P256::f_mul(keys[&4].secret_share(), lagrange::<P256>(4, &[2, 4, 5]))
    );
}

#[test]
fn a_preprocess_holds_two_commitments() {
    let keys = dealt(3, 5);
    let machine = match machine(&keys[&2], &[1, 2, 3]) {
        Ok(machine) => machine,
        Err(_) => panic!("a valid signing set was refused"),
    };
    let (_, preprocess) = machine.preprocess(&mut OsRng);
    assert_eq!(preprocess.len(), 66);
    assert!(P256::G_from_slice(&preprocess[..33]).is_ok());
    assert!(P256::G_from_slice(&preprocess[33..]).is_ok());
    assert_ne!(&preprocess[..33], &preprocess[33..]);
}

#[test]
fn a_package_holds_the_commitments_to_its_nonces() {
    let package = PreprocessPackage::<P256>::of((scalar(5), scalar(9)), b"addendum");
    assert_eq!(package.nonces, (scalar(5), scalar(9)));
    let mut expected = P256::G_to_bytes(&P256::g_mul(P256::generator(), scalar(5)));
    expected.extend(P256::G_to_bytes(&P256::g_mul(P256::generator(), scalar(9))));
    expected.extend(b"addendum");
    assert_eq!(package.serialized, expected);
    assert_eq!(PreprocessPackage::<P256>::of((scalar(5), scalar(9)), b"").serialized.len(), 66);
}

#[test]
fn any_threshold_signs() {
    let keys = dealt(3, 5);
    let msg = b"a message to sign";
    for included in [
        &[1u16, 2, 3][..],
        &[1, 3, 5][..],
        &[5, 4, 2][..],
        &[1, 2, 3, 4][..],
        &[1, 2, 3, 4, 5][..],
    ] {
        let signature = sign_with(&keys, included, msg);
        assert!(valid(keys[&1].group_key(), msg, &signature));
        assert!(!valid(keys[&1].group_key(), b"another message", &signature));
        assert!(!valid(P256::generator(), msg, &signature));
    }
}

#[test]
fn all_of_two_sign() {
    let keys = dealt(2, 2);
    let signature = sign_with(&keys, &[1, 2], b"msg");
    assert!(valid(keys[&1].group_key(), b"msg", &signature));
}

#[test]
fn one_signs_alone() {
    // with a threshold of one, every share is the secret
    let mut serialized = vec![];
    serialized.extend(5u64.to_be_bytes());
    serialized.extend(b"P-256");
    serialized.extend(1u16.to_be_bytes());
    serialized.extend(1u16.to_be_bytes());
    serialized.extend(1u16.to_be_bytes());
    serialized.extend(P256::F_to_bytes(&scalar(77)));
    serialized.extend(P256::G_to_bytes(&P256::g_mul(P256::generator(), scalar(77))));
    serialized.extend(P256::G_to_bytes(&P256::g_mul(P256::generator(), scalar(77))));
    let mut keys = HashMap::new();
    match MultisigKeys::<P256>::deserialize(&serialized) {
        Ok(these) => {
            keys.insert(1u16, these);
        }
        Err(_) => panic!("keys made by hand were refused"),
    }
    let signature = sign_with(&keys, &[1], b"msg");
    assert!(valid(P256::g_mul(P256::generator(), scalar(77)), b"msg", &signature));
}

#[test]
fn an_offset_is_absorbed() {
    let keys = dealt(3, 5);
    let offset = scalar(12345);
    let mut moved = HashMap::new();
    for (i, these) in &keys {
        moved.insert(*i, these.offset(scalar(12000)).offset(scalar(345)));
    }
    // offset keys keep their offset only in memory: sign with them as they are
    let included = [2u16, 3, 5];
    let msg = b"a message to sign";
    let mut machines = HashMap::new();
    let mut preprocesses = HashMap::new();
    for i in included {
        let these = moved.remove(&i).unwrap();
        let machine = match AlgorithmMachine::new(
            Schnorr::<P256, IetfP256Hram>::new(),
            Arc::new(these),
            &included,
        ) {
            Ok(machine) => machine,
            Err(_) => panic!("a valid signing set was refused"),
        };
        let (machine, preprocess) = machine.preprocess(&mut OsRng);
        machines.insert(i, machine);
        preprocesses.insert(i, preprocess);
    }
    let (mut signing, shares) = sign_all(machines, &preprocesses, msg);
    let signature = match signing.remove(&3).unwrap().complete(without(&shares, 3)) {
        Ok(signature) => signature,
        Err(_) => panic!("honest shares were refused"),
    };

    let group_key = keys[&1].group_key();
    let offset_key = P256::g_add(group_key, P256::g_mul(P256::generator(), offset));
    assert!(valid(offset_key, msg, &signature));
    assert!(!valid(group_key, msg, &signature));
    // under the offset key and under no other, for the challenge that was signed
    let c = IetfP256Hram::hram(&signature.R, &offset_key, msg);
    assert!(verify::<P256>(offset_key, c, &signature));
    assert!(!verify::<P256>(group_key, c, &signature));
    assert!(!verify::<P256>(P256::g_add(offset_key, P256::generator()), c, &signature));
}

#[test]
fn given_nonces_give_a_known_signature() {
    // included = [1, 3] of a 2-of-3, msg = 0x74657374
    let keys = dealt(2, 3);
    let included = [1u16, 3];
    let msg = hex::decode("74657374").unwrap();
    let nonces = [[scalar(1001), scalar(1002)], [scalar(3001), scalar(3002)]];

    let mut run = vec![];
    for _ in 0..2 {
        let mut machines = HashMap::new();
        let mut preprocesses = HashMap::new();
        for (c, i) in included.iter().enumerate() {
            let machine = match machine(&keys[i], &included) {
                Ok(machine) => machine,
                Err(_) => panic!("a valid signing set was refused"),
            };
            let mut serialized = P256::G_to_bytes(&P256::g_mul(P256::generator(), nonces[c][0]));
            serialized.extend(P256::G_to_bytes(&P256::g_mul(P256::generator(), nonces[c][1])));
            let (machine, published) = machine.unsafe_override_preprocess(PreprocessPackage {
                nonces: (nonces[c][0], nonces[c][1]),
                serialized: serialized.clone(),
            });
            assert_eq!(published, serialized);
            machines.insert(*i, machine);
            preprocesses.insert(*i, published);
        }

        // the binding factors, as the protocol defines them
        let mut transcript = vec![];
        for i in included {
            transcript.extend(i.to_be_bytes());
            transcript.extend(&preprocesses[&i]);
        }
        let mut rho = HashMap::new();
        for i in included {
            let mut input = i.to_be_bytes().to_vec();
            input.extend(&transcript);
            rho.insert(i, P256::hash_binding_factor(&input));
        }
        let mut nonce_sum = P256::g_mul(P256::generator(), scalar(0));
        for (c, i) in included.iter().enumerate() {
            let bound = P256::f_add(nonces[c][0], P256::f_mul(rho[i], nonces[c][1]));
            nonce_sum = P256::g_add(nonce_sum, P256::g_mul(P256::generator(), bound));
        }
        let challenge = IetfP256Hram::hram(&nonce_sum, &keys[&1].group_key(), &msg);

        let (signing, shares) = sign_all(machines, &preprocesses, &msg);
        let mut sum = scalar(0);
        for (c, i) in included.iter().enumerate() {
            // each share is the nonce plus the weighted secret share times the challenge
            let bound = P256::f_add(nonces[c][0], P256::f_mul(rho[i], nonces[c][1]));
            let weighted = P256::f_mul(keys[i].secret_share(), lagrange::<P256>(*i, &included));
            let share = P256::f_add(bound, P256::f_mul(weighted, challenge));
            assert_eq!(shares[i], P256::F_to_bytes(&share));
            sum = P256::f_add(sum, share);
        }
        for (i, machine) in signing {
            let signature = match machine.complete(without(&shares, i)) {
                Ok(signature) => signature,
                Err(_) => panic!("honest shares were refused"),
            };
            assert_eq!(signature.R, nonce_sum);
            assert_eq!(signature.s, sum);
            assert!(valid(keys[&1].group_key(), &msg, &signature));
            run.push(signature.serialize());
        }
    }
    // the same nonces give the same signature
    assert_eq!(run[0], run[1]);
    assert_eq!(run[0], run[2]);
    assert_eq!(run[0], run[3]);
}

#[test]
fn published_keys_sign() {
    // a published group key of P-256, with the shares of its secret for two of three
    let group_secret = "8ba9bba2e0fd8c4767154d35a0b7562244a4aaf6f36c8fb8735fa48b301bd8de";
    let group_key = "023a309ad94e9fe8a7ba45dfc58f38bf091959d3c99cfbd02b4dc00585ec45ab70";
    let shares = [
        "0c9c1a0fe806c184add50bbdcac913dda73e482daf95dcb9f35dbb0d8a9f7731",
        "8d8e787bef0ff6c2f494ca45f4dad198c6bee01212d6c84067159c52e1863ad5",
        "0e80d6e8f6192c003b5488ce1eec8f5429587d48cf001541e713b2d53c09d928",
    ];
    let secret = P256::F_from_slice(&hex::decode(group_secret).unwrap()).unwrap();
    let key = P256::G_from_slice(&hex::decode(group_key).unwrap()).unwrap();
    assert_eq!(P256::g_mul(P256::generator(), secret), key);

    let shares: Vec<Scalar> =
        shares.iter().map(|s| P256::F_from_slice(&hex::decode(s).unwrap()).unwrap()).collect();
    let mut keys = HashMap::new();
    for i in 1..=3u16 {
        let mut serialized = vec![];
        serialized.extend(5u64.to_be_bytes());
        serialized.extend(b"P-256");
        serialized.extend(2u16.to_be_bytes());
        serialized.extend(3u16.to_be_bytes());
        serialized.extend(i.to_be_bytes());
        serialized.extend(P256::F_to_bytes(&shares[usize::from(i) - 1]));
        serialized.extend(hex::decode(group_key).unwrap());
        for share in &shares {
            serialized.extend(P256::G_to_bytes(&P256::g_mul(P256::generator(), *share)));
        }
        let these = match MultisigKeys::<P256>::deserialize(&serialized) {
            Ok(these) => these,
            Err(_) => panic!("published keys were refused"),
        };
        assert_eq!(these.params().t(), 2);
        assert_eq!(these.params().n(), 3);
        assert_eq!(these.params().i(), i);
        assert_eq!(these.secret_share(), shares[usize::from(i) - 1]);
        assert_eq!(hex::encode(P256::G_to_bytes(&these.group_key())), group_key);
        keys.insert(i, these);
    }

    // any two shares recover the secret
    for set in [[1u16, 2], [1, 3], [2, 3]] {
        let mut recovered = scalar(0);
        for l in set {
            recovered = P256::f_add(
                recovered,
                P256::f_mul(keys[&l].secret_share(), lagrange::<P256>(l, &set)),
            );
        }
        assert_eq!(recovered, secret);
    }

    let msg = hex::decode("74657374").unwrap();
    let signature = sign_with(&keys, &[1, 3], &msg);
    assert!(valid(key, &msg, &signature));
}

#[test]
fn published_secp256k1_keys_are_consistent() {
    let secret = Secp256k1::F_from_slice(
        &hex::decode("0d004150d27c3bf2a42f312683d35fac7394b1e9e318249c1bfe7f0795a83114").unwrap(),
    )
    .unwrap();
    let key = Secp256k1::G_from_slice(
        &hex::decode("02f37c34b66ced1fb51c34a90bdae006901f10625cc06c4f64663b0eae87d87b4f")
            .unwrap(),
    )
    .unwrap();
    assert_eq!(Secp256k1::g_mul(Secp256k1::generator(), secret), key);
    let shares: Vec<Scalar> = [
        "08f89ffe80ac94dcb920c26f3f46140bfc7f95b493f8310f5fc1ea2b01f4254c",
        "04f0feac2edcedc6ce1253b7fab8c86b856a797f44d83d82a385554e6e401984",
        "00e95d59dd0d46b0e303e500b62b7ccb0e555d49f5b849f5e748c071da8c0dbc",
    ]
    .iter()
    .map(|s| Secp256k1::F_from_slice(&hex::decode(s).unwrap()).unwrap())
    .collect();
    for set in [[1u16, 2], [1, 3], [2, 3]] {
        let mut recovered = Secp256k1::f_from_u64(0);
        for l in set {
            recovered = Secp256k1::f_add(
                recovered,
                Secp256k1::f_mul(shares[usize::from(l) - 1], lagrange::<Secp256k1>(l, &set)),
            );
        }
        assert_eq!(recovered, secret);
    }
}

#[test]
fn published_secp256k1_keys_sign() {
    let group_key = "02f37c34b66ced1fb51c34a90bdae006901f10625cc06c4f64663b0eae87d87b4f";
    let shares: Vec<Scalar> = [
        "08f89ffe80ac94dcb920c26f3f46140bfc7f95b493f8310f5fc1ea2b01f4254c",
        "04f0feac2edcedc6ce1253b7fab8c86b856a797f44d83d82a385554e6e401984",
        "00e95d59dd0d46b0e303e500b62b7ccb0e555d49f5b849f5e748c071da8c0dbc",
    ]
    .iter()
    .map(|s| Secp256k1::F_from_slice(&hex::decode(s).unwrap()).unwrap())
    .collect();
    let mut keys = HashMap::new();
    for i in 1..=3u16 {
        let mut serialized = vec![];
        serialized.extend(9u64.to_be_bytes());
        serialized.extend(b"secp256k1");
        serialized.extend(2u16.to_be_bytes());
        serialized.extend(3u16.to_be_bytes());
        serialized.extend(i.to_be_bytes());
        serialized.extend(Secp256k1::F_to_bytes(&shares[usize::from(i) - 1]));
        serialized.extend(hex::decode(group_key).unwrap());
        for share in &shares {
            serialized.extend(Secp256k1::G_to_bytes(&Secp256k1::g_mul(
                Secp256k1::generator(),
                *share,
            )));
        }
        match MultisigKeys::<Secp256k1>::deserialize(&serialized) {
            Ok(these) => {
                keys.insert(i, these);
            }
            Err(_) => panic!("published keys were refused"),
        }
    }
    let included = [1u16, 3];
    let msg = hex::decode("74657374").unwrap();
    let mut machines = HashMap::new();
    let mut preprocesses = HashMap::new();
    for i in included {
        let machine = match AlgorithmMachine::new(
            Schnorr::<Secp256k1, NonIetfSecp256k1Hram>::new(),
            Arc::new(keys.remove(&i).unwrap()),
            &included,
        ) {
            Ok(machine) => machine,
            Err(_) => panic!("a valid signing set was refused"),
        };
        let (machine, preprocess) = machine.preprocess(&mut OsRng);
        machines.insert(i, machine);
        preprocesses.insert(i, preprocess);
    }
    let mut signing = HashMap::new();
    let mut shares = HashMap::new();
    for (i, machine) in machines {
        match machine.sign(without(&preprocesses, i), &msg) {
            Ok((machine, share)) => {
                signing.insert(i, machine);
                shares.insert(i, share);
            }
            Err(_) => panic!("honest preprocesses were refused"),
        }
    }
    for (i, machine) in signing {
        let signature = match machine.complete(without(&shares, i)) {
            Ok(signature) => signature,
            Err(_) => panic!("honest shares were refused"),
        };
        let key = Secp256k1::G_from_slice(&hex::decode(group_key).unwrap()).unwrap();
        let c = NonIetfSecp256k1Hram::hram(&signature.R, &key, &msg);
        assert!(verify::<Secp256k1>(key, c, &signature));
    }
}

#[test]
fn the_challenge_is_hashed_under_chal() {
    let r = P256::g_mul(P256::generator(), scalar(3));
    let a = P256::g_mul(P256::generator(), scalar(4));
    let mut input = P256::G_to_bytes(&r);
    input.extend(P256::G_to_bytes(&a));
    input.extend(b"msg");
    assert_eq!(
        IetfP256Hram::hram(&r, &a, b"msg"),
        P256::hash_to_F(b"FROST-P256-SHA256-v5chal", &input)
    );
    let r = Secp256k1::g_mul(Secp256k1::generator(), Secp256k1::f_from_u64(3));
    let a = Secp256k1::g_mul(Secp256k1::generator(), Secp256k1::f_from_u64(4));
    let mut input = Secp256k1::G_to_bytes(&r);
    input.extend(Secp256k1::G_to_bytes(&a));
    input.extend(b"msg");
    assert_eq!(
        NonIetfSecp256k1Hram::hram(&r, &a, b"msg"),
        Secp256k1::hash_to_F(b"FROST-secp256k1-SHA256-v5chal", &input)
    );
}

#[test]
fn the_schnorr_algorithm_adds_nothing() {
    let algorithm = Schnorr::<P256, IetfP256Hram>::new();
    assert_eq!(algorithm.context(), Vec::<u8>::new());
    assert_eq!(<Schnorr<P256, IetfP256Hram> as Algorithm<P256>>::addendum_commit_len(), 0);
}

fn sign_error(r: Result<(SignatureMachine, Vec<u8>), FrostError>) -> FrostError {
    match r {
        Ok(_) => panic!("faulty preprocesses were accepted"),
        Err(e) => e,
    }
}

#[test]
fn a_corrupted_preprocess_is_blamed() {
    let keys = dealt(3, 5);
    let included = [1u16, 2, 4];

    // a point that is none
    let (mut machines, preprocesses) = preprocess_all(&keys, &included);
    let mut others = without(&preprocesses, 1);
    others.get_mut(&4).unwrap()[33] = 9;
    let res = machines.remove(&1).unwrap().sign(others, b"msg");
    assert!(matches!(sign_error(res), FrostError::InvalidCommitment(4)));

    // the identity
    let mut others = without(&preprocesses, 2);
    for byte in &mut others.get_mut(&1).unwrap()[..33] {
        *byte = 0;
    }
    let res = machines.remove(&2).unwrap().sign(others, b"msg");
    assert!(matches!(sign_error(res), FrostError::InvalidCommitment(1)));

    // a preprocess with something added
    let mut others = without(&preprocesses, 4);
    others.get_mut(&2).unwrap().push(0);
    let res = machines.remove(&4).unwrap().sign(others, b"msg");
    assert!(matches!(sign_error(res), FrostError::InvalidCommitment(2)));
}

#[test]
fn signing_asks_for_the_signing_set() {
    let keys = dealt(3, 5);
    let included = [1u16, 2, 4];
    let (mut machines, preprocesses) = preprocess_all(&keys, &included);

    let mut others = without(&preprocesses, 1);
    others.remove(&2);
    let res = machines.remove(&1).unwrap().sign(others, b"msg");
    assert!(matches!(sign_error(res), FrostError::InvalidParticipantQuantity(3, 2)));

    let mut others = without(&preprocesses, 2);
    let moved = others.remove(&4).unwrap();
    others.insert(5, moved);
    let res = machines.remove(&2).unwrap().sign(others, b"msg");
    assert!(matches!(sign_error(res), FrostError::MissingParticipant(4)));
}

fn complete_error(r: Result<SchnorrSignature<P256>, FrostError>) -> FrostError {
    match r {
        Ok(_) => panic!("faulty shares were accepted"),
        Err(e) => e,
    }
}

#[test]
fn a_corrupted_share_names_its_sender() {
    let keys = dealt(2, 3);
    let included = [1u16, 2, 3];
    let (machines, preprocesses) = preprocess_all(&keys, &included);
    let (mut signing, shares) = sign_all(machines, &preprocesses, b"msg");

    // corrupt the share of the participant 3
    let mut others = without(&shares, 1);
    let share = P256::F_from_slice(&others[&3]).unwrap();
    others.insert(3, P256::F_to_bytes(&P256::f_add(share, scalar(1))));
    let res = signing.remove(&1).unwrap().complete(others);
    assert!(matches!(complete_error(res), FrostError::InvalidShare(3)));

    // a share that is no scalar
    let mut others = without(&shares, 2);
    others.insert(3, vec![0xff; 32]);
    let res = signing.remove(&2).unwrap().complete(others);
    assert!(matches!(complete_error(res), FrostError::InvalidShare(3)));

    // two corrupted shares: the first in the signing set is named
    let mut others = without(&shares, 3);
    others.get_mut(&1).unwrap()[31] ^= 1;
    others.get_mut(&2).unwrap()[31] ^= 1;
    let res = signing.remove(&3).unwrap().complete(others);
    assert!(matches!(complete_error(res), FrostError::InvalidShare(1)));
}

#[test]
fn completing_asks_for_the_signing_set() {
    let keys = dealt(2, 3);
    let included = [1u16, 2, 3];
    let (machines, preprocesses) = preprocess_all(&keys, &included);
    let (mut signing, shares) = sign_all(machines, &preprocesses, b"msg");

    let mut others = without(&shares, 1);
    others.remove(&2);
    let res = signing.remove(&1).unwrap().complete(others);
    assert!(matches!(complete_error(res), FrostError::InvalidParticipantQuantity(3, 2)));

    let mut others = without(&shares, 2);
    let moved = others.remove(&3).unwrap();
    others.insert(7, moved);
    let res = signing.remove(&2).unwrap().complete(others);
    assert!(matches!(complete_error(res), FrostError::MissingParticipant(3)));
}

#[test]
fn shares_of_two_messages_do_not_add_up() {
    // one participant signs another message than the others: its share is refused
    let keys = dealt(2, 3);
    let included = [1u16, 2];
    let (mut machines, preprocesses) = preprocess_all(&keys, &included);
    let (first, _) = match machines.remove(&1).unwrap().sign(without(&preprocesses, 1), b"one") {
        Ok(res) => res,
        Err(_) => panic!("honest preprocesses were refused"),
    };
    let (_, share) = match machines.remove(&2).unwrap().sign(without(&preprocesses, 2), b"two") {
        Ok(res) => res,
        Err(_) => panic!("honest preprocesses were refused"),
    };
    let mut others = HashMap::new();
    others.insert(2u16, share);
    assert!(matches!(complete_error(first.complete(others)), FrostError::InvalidShare(2)));
}

#[test]
fn keys_signed_with_are_consistent() {
    // shares that do not belong to the group key: everyone's share is valid, the
    // signature is not
    let mut keys = HashMap::new();
    for i in 1..=2u16 {
        let mut serialized = vec![];
        serialized.extend(5u64.to_be_bytes());
        serialized.extend(b"P-256");
        serialized.extend(2u16.to_be_bytes());
        serialized.extend(2u16.to_be_bytes());
        serialized.extend(i.to_be_bytes());
        serialized.extend(P256::F_to_bytes(&scalar(100 + 7 * u64::from(i))));
        serialized.extend(P256::G_to_bytes(&P256::g_mul(P256::generator(), scalar(999))));
        for l in 1..=2u64 {
            serialized.extend(P256::G_to_bytes(&P256::g_mul(P256::generator(), scalar(100 + 7 * l))));
        }
        match MultisigKeys::<P256>::deserialize(&serialized) {
            Ok(these) => {
                keys.insert(i, these);
            }
            Err(_) => panic!("keys made by hand were refused"),
        }
    }
    let (machines, preprocesses) = preprocess_all(&keys, &[1, 2]);
    let (mut signing, shares) = sign_all(machines, &preprocesses, b"msg");
    match complete_error(signing.remove(&1).unwrap().complete(without(&shares, 1))) {
        FrostError::InternalError(why) => {
            assert_eq!(why, "everyone had a valid share yet the signature was still invalid")
        }
        _ => panic!("another error than an internal one"),
    }
}

#[test]
fn every_preprocess_draws_fresh_nonces() {
    let keys = dealt(2, 3);
    let first = match machine(&keys[&1], &[1, 2]) {
        Ok(machine) => machine.preprocess(&mut OsRng).1,
        Err(_) => panic!("a valid signing set was refused"),
    };
    let second = match machine(&keys[&1], &[1, 2]) {
        Ok(machine) => machine.preprocess(&mut OsRng).1,
        Err(_) => panic!("a valid signing set was refused"),
    };
    assert_ne!(first[..33], second[..33]);
    assert_ne!(first[33..], second[33..]);
    assert_ne!(first[..33], first[33..]);
}

#[test]
fn a_nonce_is_made_of_the_secret_and_a_seed() {
    let secret = scalar(11);
    let nonce = P256::nonce_from_seed(secret, &[7u8; 32]);
    assert_eq!(nonce, P256::nonce_from_seed(secret, &[7u8; 32]));
    assert_ne!(nonce, P256::nonce_from_seed(secret, &[8u8; 32]));
    assert_ne!(nonce, P256::nonce_from_seed(scalar(12), &[7u8; 32]));
    // the commitment that a package publishes is the nonce's multiple of the generator
    let package = PreprocessPackage::<P256>::of((nonce, nonce), b"");
    assert_eq!(
        package.serialized[..33],
        P256::G_to_bytes(&P256::g_mul(P256::generator(), nonce))[..]
    );
}
