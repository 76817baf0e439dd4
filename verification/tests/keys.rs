use std::collections::HashMap;

use rand_core::OsRng;

use frost::curve::kp256::{Point, Scalar, Secp256k1, P256};
use frost::curve::Curve;
use frost::{lagrange, FrostError, MultisigKeys};

fn scalar(x: u64) -> Scalar {
    P256::f_from_u64(x)
}

// Keys of a polynomial dealt by hand: the shares of the secret 100 + 7x + 3x², for three
// participants and a threshold of three
fn shares() -> Vec<Scalar> {
    vec![scalar(110), scalar(126), scalar(148)]
}

fn serialized(t: u16, i: u16) -> Vec<u8> {
    let shares = shares();
    let mut res = vec![];
    res.extend(5u64.to_be_bytes());
    res.extend(b"P-256");
    res.extend(t.to_be_bytes());
    res.extend(3u16.to_be_bytes());
    res.extend(i.to_be_bytes());
    res.extend(P256::F_to_bytes(&shares[usize::from(i) - 1]));
    res.extend(P256::G_to_bytes(&P256::g_mul(P256::generator(), scalar(100))));
    for share in &shares {
        res.extend(P256::G_to_bytes(&P256::g_mul(P256::generator(), *share)));
    }
    res
}

fn keys(t: u16, i: u16) -> MultisigKeys<P256> {
    match MultisigKeys::<P256>::deserialize(&serialized(t, i)) {
        Ok(keys) => keys,
        Err(_) => panic!("keys made by hand were refused"),
    }
}

fn internal(r: Result<MultisigKeys<P256>, FrostError>) -> String {
    match r {
        Err(FrostError::InternalError(why)) => why,
        Err(_) => panic!("another error than an internal one"),
        Ok(_) => panic!("the keys were accepted"),
    }
}

#[test]
fn lagrange_coefficients_of_a_small_set() {
    // for the set 1, 2, 3: 3, -3 and 1
    assert_eq!(lagrange::<P256>(1, &[1, 2, 3]), scalar(3));
    assert_eq!(lagrange::<P256>(2, &[1, 2, 3]), P256::f_neg(scalar(3)));
    assert_eq!(lagrange::<P256>(3, &[1, 2, 3]), scalar(1));
    // for the set 1, 3: 3/2 and -1/2
    let half = P256::f_invert(scalar(2)).unwrap();
    assert_eq!(lagrange::<P256>(1, &[1, 3]), P256::f_mul(scalar(3), half));
    assert_eq!(lagrange::<P256>(3, &[1, 3]), P256::f_neg(half));
    assert_eq!(lagrange::<Secp256k1>(3, &[1, 2, 3]), Secp256k1::f_from_u64(1));
}

#[test]
fn lagrange_coefficient_of_a_set_of_one() {
    assert_eq!(lagrange::<P256>(5, &[5]), scalar(1));
    assert_eq!(lagrange::<P256>(5, &[]), scalar(1));
}

#[test]
fn lagrange_coefficient_of_one_outside_the_set() {
    // 1·2 / ((1 - 4)(2 - 4)) = 1/3
    assert_eq!(lagrange::<P256>(4, &[1, 2]), P256::f_invert(scalar(3)).unwrap());
}

#[test]
fn lagrange_coefficients_add_up_to_one() {
    let set = [2u16, 5, 9, 14, 300];
    let mut sum = scalar(0);
    for l in set {
        sum = P256::f_add(sum, lagrange::<P256>(l, &set));
    }
    assert_eq!(sum, scalar(1));
}

#[test]
fn lagrange_coefficients_recover_the_secret() {
    let shares = shares();
    let set = [1u16, 2, 3];
    let mut secret = scalar(0);
    for l in set {
        secret = P256::f_add(
            secret,
            P256::f_mul(shares[usize::from(l) - 1], lagrange::<P256>(l, &set)),
        );
    }
    assert_eq!(secret, scalar(100));
}

#[test]
fn keys_are_read_as_written() {
    let keys = keys(3, 2);
    assert_eq!(keys.params().t(), 3);
    assert_eq!(keys.params().n(), 3);
    assert_eq!(keys.params().i(), 2);
    assert_eq!(keys.secret_share(), scalar(126));
    assert_eq!(keys.group_key(), P256::g_mul(P256::generator(), scalar(100)));
    let mut expected: HashMap<u16, Point> = HashMap::new();
    for (l, share) in shares().iter().enumerate() {
        expected.insert(l as u16 + 1, P256::g_mul(P256::generator(), *share));
    }
    assert_eq!(keys.verification_shares(), expected);
    assert_eq!(keys.serialize(), serialized(3, 2));
}

#[test]
fn serialized_keys_have_the_stated_length() {
    // 8 + 5 + 6 + 32 + 33 + 3 * 33
    assert_eq!(MultisigKeys::<P256>::serialized_len(3), 183);
    assert_eq!(serialized(3, 1).len(), 183);
    assert_eq!(MultisigKeys::<P256>::serialized_len(0), 84);
    assert_eq!(MultisigKeys::<Secp256k1>::serialized_len(1), 8 + 9 + 6 + 32 + 33 + 33);
    assert_eq!(MultisigKeys::<P256>::serialized_len(65535), 84 + 65535 * 33);
}

#[test]
fn deserialize_asks_for_the_header() {
    assert_eq!(
        internal(MultisigKeys::<P256>::deserialize(&[])),
        "MultisigKeys serialization is missing its curve/participant quantities"
    );
    assert_eq!(
        internal(MultisigKeys::<P256>::deserialize(&serialized(3, 1)[..16])),
        "MultisigKeys serialization is missing its curve/participant quantities"
    );
}

#[test]
fn deserialize_asks_for_the_curve() {
    assert_eq!(
        internal(MultisigKeys::<Secp256k1>::deserialize(&serialized(3, 1)).map(|_| keys(3, 1))),
        "curve is distinct between serialization and deserialization"
    );
    let mut other = serialized(3, 1);
    other[8] = b'Q';
    assert_eq!(
        internal(MultisigKeys::<P256>::deserialize(&other)),
        "curve is distinct between serialization and deserialization"
    );
    let mut other = serialized(3, 1);
    other[7] = 4;
    assert_eq!(
        internal(MultisigKeys::<P256>::deserialize(&other)),
        "curve is distinct between serialization and deserialization"
    );
}

#[test]
fn deserialize_asks_for_the_exact_length() {
    let full = serialized(3, 1);
    assert_eq!(
        internal(MultisigKeys::<P256>::deserialize(&full[..full.len() - 1])),
        "incorrect serialization length"
    );
    let mut longer = full.clone();
    longer.push(0);
    assert_eq!(
        internal(MultisigKeys::<P256>::deserialize(&longer)),
        "incorrect serialization length"
    );
    // another number of participants asks for another length
    let mut other = full.clone();
    other[16] = 2;
    assert_eq!(
        internal(MultisigKeys::<P256>::deserialize(&other)),
        "incorrect serialization length"
    );
}

#[test]
fn deserialize_refuses_a_scalar_out_of_range() {
    let mut other = serialized(3, 1);
    for byte in &mut other[19..51] {
        *byte = 0xff;
    }
    assert_eq!(internal(MultisigKeys::<P256>::deserialize(&other)), "invalid secret share");
}

#[test]
fn deserialize_refuses_points_out_of_range() {
    let mut other = serialized(3, 1);
    other[51] = 9;
    assert_eq!(internal(MultisigKeys::<P256>::deserialize(&other)), "invalid group key");
    let mut other = serialized(3, 1);
    for byte in &mut other[51..84] {
        *byte = 0;
    }
    assert_eq!(internal(MultisigKeys::<P256>::deserialize(&other)), "invalid group key");
    for l in 0..3 {
        let mut other = serialized(3, 1);
        other[84 + l * 33] = 9;
        assert_eq!(
            internal(MultisigKeys::<P256>::deserialize(&other)),
            "invalid verification share"
        );
    }
}

#[test]
fn deserialize_refuses_invalid_parameters() {
    assert_eq!(
        internal(MultisigKeys::<P256>::deserialize(&serialized(4, 1))),
        "invalid parameters"
    );
    assert_eq!(
        internal(MultisigKeys::<P256>::deserialize(&serialized(0, 1))),
        "invalid parameters"
    );
    let mut other = serialized(3, 1);
    other[18] = 4;
    assert_eq!(internal(MultisigKeys::<P256>::deserialize(&other)), "invalid parameters");
    let mut other = serialized(3, 1);
    other[18] = 0;
    assert_eq!(internal(MultisigKeys::<P256>::deserialize(&other)), "invalid parameters");
}

#[test]
fn an_offset_moves_the_group_key() {
    let keys = keys(3, 1);
    let offset = scalar(5);
    let moved = keys.offset(offset);
    assert_eq!(moved.group_key(), P256::g_mul(P256::generator(), scalar(105)));
    assert_eq!(moved.secret_share(), keys.secret_share());
    assert_eq!(moved.verification_shares(), keys.verification_shares());
    assert_eq!(moved.params(), keys.params());
    // offsets add up
    let twice = moved.offset(scalar(7));
    assert_eq!(twice.group_key(), P256::g_mul(P256::generator(), scalar(112)));
    assert_eq!(twice.group_key(), keys.offset(scalar(12)).group_key());
}

#[test]
fn an_offset_is_not_serialized() {
    let keys = keys(3, 1);
    let moved = keys.offset(scalar(5));
    let read = match MultisigKeys::<P256>::deserialize(&moved.serialize()) {
        Ok(read) => read,
        Err(_) => panic!("offset keys were refused"),
    };
    // the key is written as moved, without the offset that moved it
    assert_eq!(read.group_key(), moved.group_key());
    let all = [1u16, 2, 3];
    assert_eq!(
        read.view(&all).unwrap().secret_share(),
        keys.view(&all).unwrap().secret_share()
    );
    assert_ne!(
        read.view(&all).unwrap().secret_share(),
        moved.view(&all).unwrap().secret_share()
    );
}

#[test]
fn a_view_weights_the_shares() {
    let keys = keys(3, 2);
    let set = [1u16, 2, 3];
    let view = keys.view(&set).unwrap();
    assert_eq!(view.group_key(), keys.group_key());
    assert_eq!(view.included(), set.to_vec());
    // 126 * -3
    assert_eq!(view.secret_share(), P256::f_neg(scalar(378)));
    assert_eq!(view.verification_share(1), P256::g_mul(P256::generator(), scalar(330)));
    assert_eq!(
        view.verification_share(2),
        P256::g_mul(P256::generator(), P256::f_neg(scalar(378)))
    );
    assert_eq!(view.verification_share(3), P256::g_mul(P256::generator(), scalar(148)));
    // the weighted shares add up to the secret
    let mut sum = P256::g_mul(P256::generator(), scalar(0));
    for l in set {
        sum = P256::g_add(sum, view.verification_share(l));
    }
    assert_eq!(sum, keys.group_key());
}

#[test]
fn a_view_spreads_the_offset() {
    let keys = keys(3, 2).offset(scalar(9));
    let set = [1u16, 2, 3];
    let view = keys.view(&set).unwrap();
    // 126 * -3 + 9 / 3
    assert_eq!(view.secret_share(), P256::f_neg(scalar(375)));
    assert_eq!(view.verification_share(1), P256::g_mul(P256::generator(), scalar(333)));
    assert_eq!(view.verification_share(3), P256::g_mul(P256::generator(), scalar(151)));
    assert_eq!(view.group_key(), P256::g_mul(P256::generator(), scalar(109)));
    let mut sum = P256::g_mul(P256::generator(), scalar(0));
    for l in set {
        sum = P256::g_add(sum, view.verification_share(l));
    }
    assert_eq!(sum, keys.group_key());
}

#[test]
fn a_view_asks_for_enough_participants() {
    let keys = keys(2, 1);
    for set in [&[][..], &[1][..], &[1, 2, 3, 4][..]] {
        match keys.view(set) {
            Err(FrostError::InvalidSigningSet(why)) => {
                assert_eq!(why, "invalid amount of participants included")
            }
            _ => panic!("a set of the wrong size was accepted"),
        }
    }
    assert!(keys.view(&[1, 2]).is_ok());
    assert!(keys.view(&[1, 2, 3]).is_ok());
}

#[test]
fn random_keys_round_trip() {
    let mut bytes = vec![];
    bytes.extend(9u64.to_be_bytes());
    bytes.extend(b"secp256k1");
    bytes.extend(1u16.to_be_bytes());
    bytes.extend(2u16.to_be_bytes());
    bytes.extend(2u16.to_be_bytes());
    bytes.extend(Secp256k1::F_to_bytes(&Secp256k1::f_random(&mut OsRng)));
    for _ in 0..3 {
        let point = Secp256k1::g_mul(Secp256k1::generator(), Secp256k1::f_random(&mut OsRng));
        bytes.extend(Secp256k1::G_to_bytes(&point));
    }
    let keys = match MultisigKeys::<Secp256k1>::deserialize(&bytes) {
        Ok(keys) => keys,
        Err(_) => panic!("random keys were refused"),
    };
    assert_eq!(keys.serialize(), bytes);
}

#[test]
fn a_view_holds_its_set_in_ascending_order() {
    let keys = keys(2, 1);
    let view = keys.view(&[3, 1]).unwrap();
    assert_eq!(view.included(), vec![1u16, 3]);
    // repeated calls agree
    assert_eq!(keys.view(&[3, 1]).unwrap().included(), vec![1u16, 3]);
    assert_eq!(keys.view(&[1, 3]).unwrap().included(), vec![1u16, 3]);
    assert_eq!(keys.view(&[2, 3, 1]).unwrap().included(), vec![1u16, 2, 3]);
}

#[test]
fn a_view_does_not_depend_on_the_order_given() {
    let moved = keys(3, 3).offset(scalar(4));
    let ascending = moved.view(&[1, 2, 3]).unwrap();
    let mixed = moved.view(&[3, 1, 2]).unwrap();
    assert_eq!(mixed.included(), ascending.included());
    assert_eq!(mixed.secret_share(), ascending.secret_share());
    assert_eq!(mixed.group_key(), ascending.group_key());
    for l in 1..=3u16 {
        assert_eq!(mixed.verification_share(l), ascending.verification_share(l));
    }
    // the shares of the set's members add up to the group's key
    let sum = P256::g_add(
        P256::g_add(mixed.verification_share(3), mixed.verification_share(1)),
        mixed.verification_share(2),
    );
    assert_eq!(sum, moved.group_key());

    // a smaller set, of keys with a threshold of two
    let pair = keys(2, 3);
    let ascending = pair.view(&[1, 3]).unwrap();
    let descending = pair.view(&[3, 1]).unwrap();
    assert_eq!(descending.secret_share(), ascending.secret_share());
    assert_eq!(descending.verification_share(1), ascending.verification_share(1));
    assert_eq!(descending.verification_share(3), ascending.verification_share(3));
}
