use std::collections::HashMap;

use frost::{validate_map, FrostError, MultisigParams};

#[test]
fn params_are_kept() {
    let params = MultisigParams::new(2, 3, 1).unwrap();
    assert_eq!(params.t(), 2);
    assert_eq!(params.n(), 3);
    assert_eq!(params.i(), 1);
}

#[test]
fn params_allow_the_edges() {
    assert!(MultisigParams::new(1, 1, 1).is_ok());
    assert!(MultisigParams::new(3, 3, 3).is_ok());
    assert!(MultisigParams::new(65535, 65535, 65535).is_ok());
}

#[test]
fn params_refuse_zero() {
    assert!(matches!(MultisigParams::new(0, 3, 1), Err(FrostError::ZeroParameter(0, 3))));
    assert!(matches!(MultisigParams::new(2, 0, 1), Err(FrostError::ZeroParameter(2, 0))));
    assert!(matches!(MultisigParams::new(0, 0, 0), Err(FrostError::ZeroParameter(0, 0))));
}

#[test]
fn params_refuse_a_threshold_above_the_participants() {
    assert!(matches!(
        MultisigParams::new(4, 3, 1),
        Err(FrostError::InvalidRequiredQuantity(4, 3))
    ));
}

#[test]
fn params_refuse_an_index_out_of_range() {
    assert!(matches!(
        MultisigParams::new(2, 3, 0),
        Err(FrostError::InvalidParticipantIndex(3, 0))
    ));
    assert!(matches!(
        MultisigParams::new(2, 3, 4),
        Err(FrostError::InvalidParticipantIndex(3, 4))
    ));
}

#[test]
fn params_test_the_threshold_before_the_index() {
    assert!(matches!(
        MultisigParams::new(4, 3, 9),
        Err(FrostError::InvalidRequiredQuantity(4, 3))
    ));
}

#[test]
fn validate_map_adds_our_value() {
    let mut map = HashMap::new();
    map.insert(1u16, 10u8);
    map.insert(3u16, 30u8);
    assert!(validate_map(&mut map, &[1, 2, 3], (2, 20)).is_ok());
    assert_eq!(map.len(), 3);
    assert_eq!(map[&2], 20);
}

#[test]
fn validate_map_counts_the_entries() {
    let mut map = HashMap::new();
    map.insert(1u16, 10u8);
    assert!(matches!(
        validate_map(&mut map, &[1, 2, 3], (2, 20)),
        Err(FrostError::InvalidParticipantQuantity(3, 2))
    ));
    let mut map = HashMap::new();
    map.insert(1u16, 10u8);
    map.insert(3u16, 10u8);
    map.insert(4u16, 10u8);
    assert!(matches!(
        validate_map(&mut map, &[1, 2, 3], (2, 20)),
        Err(FrostError::InvalidParticipantQuantity(3, 4))
    ));
}

#[test]
fn validate_map_names_the_first_missing() {
    let mut map = HashMap::new();
    map.insert(1u16, 10u8);
    map.insert(7u16, 70u8);
    assert!(matches!(
        validate_map(&mut map, &[1, 2, 3], (8, 80)),
        Err(FrostError::MissingParticipant(2))
    ));
}

#[test]
fn validate_map_replaces_our_value() {
    let mut map = HashMap::new();
    map.insert(1u16, 10u8);
    map.insert(2u16, 99u8);
    assert!(validate_map(&mut map, &[1, 2], (2, 20)).is_ok());
    assert_eq!(map[&2], 20);
}
