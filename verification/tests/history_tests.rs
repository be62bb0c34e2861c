use ockam_profile::authentication::{decode_proof, encode_proof};
use ockam_profile::change::{
    Changes, CreateKeyChange, KeyAttributes, ProfileChange, ProfileChangeEvent, ProfileChangeType,
    ProfileEventAttributes, RotateKeyChange, Signature, SignatureType,
};
use ockam_profile::encoding::encode_changes_binary;
use ockam_profile::error::OckamError;
use ockam_profile::history::{profile_update_key_attributes, ProfileChangeHistory};
use ockam_profile::identifiers::{EventIdentifier, ProfileIdentifier};
use ockam_profile::vault::PublicKey;

fn create(label: &str, pk: u8) -> ProfileChange {
    ProfileChange::new(
        1,
        ProfileEventAttributes::new(),
        ProfileChangeType::CreateKey(CreateKeyChange::new(
            KeyAttributes::new(label.to_string()),
            PublicKey::new(vec![pk; 4]),
        )),
    )
}

fn rotate(label: &str, pk: u8) -> ProfileChange {
    ProfileChange::new(
        1,
        ProfileEventAttributes::new(),
        ProfileChangeType::RotateKey(RotateKeyChange::new(
            KeyAttributes::new(label.to_string()),
            PublicKey::new(vec![pk; 4]),
        )),
    )
}

fn event(id: u8, prev: u8, data: Vec<ProfileChange>, sigs: &[SignatureType]) -> ProfileChangeEvent {
    ProfileChangeEvent::new(
        EventIdentifier::from_hash([id; 32]),
        Changes::new(EventIdentifier::from_hash([prev; 32]), data),
        sigs.iter().map(|t| Signature::new(*t, vec![id])).collect(),
    )
}

const PUK: &str = "OCKAM_PUK";

fn chain() -> Vec<ProfileChangeEvent> {
    vec![
        event(1, 0, vec![create(PUK, 10)], &[SignatureType::SelfSign]),
        event(2, 1, vec![create("truck", 20)], &[SignatureType::SelfSign, SignatureType::RootSign]),
        event(
            3,
            2,
            vec![rotate("truck", 21)],
            &[SignatureType::SelfSign, SignatureType::PrevSign, SignatureType::RootSign],
        ),
    ]
}

#[test]
fn encoded_changes_have_the_bare_layout() {
    let mut attributes = ProfileEventAttributes::new();
    attributes.insert("a".to_string(), "b".to_string());
    let change = ProfileChange::new(
        1,
        attributes,
        ProfileChangeType::CreateKey(CreateKeyChange::new(
            KeyAttributes::new("L".to_string()),
            PublicKey::new(vec![9, 9]),
        )),
    );
    let changes = Changes::new(EventIdentifier::from_hash([7; 32]), vec![change]);
    let mut expected = vec![7u8; 32];
    expected.extend_from_slice(&[1, 1, 1, 1, b'a', 1, b'b', 0, 1, b'L', 2, 9, 9]);
    assert_eq!(encode_changes_binary(&changes).unwrap(), expected);
}

#[test]
fn long_fields_take_multi_byte_lengths() {
    let label = "x".repeat(200);
    let change = ProfileChange::new(
        1,
        ProfileEventAttributes::new(),
        ProfileChangeType::RotateKey(RotateKeyChange::new(
            KeyAttributes::new(label.clone()),
            PublicKey::new(vec![]),
        )),
    );
    let changes = Changes::new(EventIdentifier::from_hash([0; 32]), vec![change]);
    let bytes = encode_changes_binary(&changes).unwrap();
    assert_eq!(&bytes[32..37], &[1, 1, 0, 1, 0xC8]);
    assert_eq!(bytes[37], 0x01);
    assert_eq!(&bytes[38..238], label.as_bytes());
    assert_eq!(&bytes[238..], &[0]);
}

#[test]
fn proof_framing_round_trip() {
    let proof = encode_proof(&[1, 2, 3]).unwrap();
    assert_eq!(proof, vec![3, 1, 2, 3]);
    assert_eq!(decode_proof(&proof).unwrap(), vec![1, 2, 3]);
    let long = vec![5u8; 300];
    let proof = encode_proof(&long).unwrap();
    assert_eq!(&proof[..2], &[0xAC, 0x02]);
    assert_eq!(decode_proof(&proof).unwrap(), long);
    let mut with_tail = encode_proof(&[4]).unwrap();
    with_tail.push(99);
    assert_eq!(decode_proof(&with_tail).unwrap(), vec![4]);
}

#[test]
fn malformed_proofs_are_bare_errors() {
    assert_eq!(decode_proof(&[]).unwrap_err(), OckamError::BareError);
    assert_eq!(decode_proof(&[5, 1]).unwrap_err(), OckamError::BareError);
    assert_eq!(decode_proof(&[0x80]).unwrap_err(), OckamError::BareError);
    assert_eq!(decode_proof(&[0xFF; 11]).unwrap_err(), OckamError::BareError);
    assert_eq!(decode_proof(&[0x80, 0x00]).unwrap(), Vec::<u8>::new());
}

#[test]
fn consistent_chain_is_accepted() {
    let c = chain();
    assert!(ProfileChangeHistory::check_consistency(&[], &c).is_ok());
    assert!(ProfileChangeHistory::check_consistency(&c[..1], &c[1..]).is_ok());
}

#[test]
fn unlinked_event_is_refused() {
    let c = chain();
    assert_eq!(
        ProfileChangeHistory::check_consistency(&c[..1], &c[2..]).unwrap_err(),
        OckamError::EventIdDoesntMatch
    );
}

#[test]
fn event_with_two_changes_is_refused() {
    let c = chain();
    let two = event(2, 1, vec![create("a", 1), create("b", 2)], &[SignatureType::SelfSign]);
    assert_eq!(
        ProfileChangeHistory::check_consistency(&c[..1], &[two]).unwrap_err(),
        OckamError::InvalidInternalState
    );
}

#[test]
fn first_failure_decides() {
    let c = chain();
    let two = event(9, 1, vec![create("a", 1), create("b", 2)], &[]);
    let unlinked = event(10, 77, vec![create("c", 3)], &[]);
    assert_eq!(
        ProfileChangeHistory::check_consistency(&c[..1], &[two, unlinked]).unwrap_err(),
        OckamError::InvalidInternalState
    );
}

#[test]
fn lookups_find_the_current_keys() {
    let h = ProfileChangeHistory::new(chain());
    let truck = KeyAttributes::new("truck".to_string());
    assert_eq!(h.get_public_key(&truck).unwrap().data, vec![21; 4]);
    assert_eq!(
        ProfileChangeHistory::get_current_profile_update_public_key(h.as_ref()).unwrap().data,
        vec![10; 4]
    );
    assert_eq!(h.get_first_root_public_key().unwrap().data, vec![10; 4]);
    let e = ProfileChangeHistory::find_last_key_event(h.as_ref(), &truck).unwrap();
    assert_eq!(e.identifier.hash, [3; 32]);
    assert_eq!(h.get_last_event_id().unwrap().hash, [3; 32]);
    assert_eq!(
        h.get_public_key(&KeyAttributes::new("none".to_string())).unwrap_err(),
        OckamError::InvalidInternalState
    );
    assert_eq!(profile_update_key_attributes().label, PUK);
}

#[test]
fn empty_history_has_no_root() {
    let h = ProfileChangeHistory::new(Vec::new());
    assert_eq!(h.get_first_root_public_key().unwrap_err(), OckamError::VerifyFailed);
    assert_eq!(h.get_last_event_id().unwrap_err(), OckamError::InvalidInternalState);
    let rotated_first = ProfileChangeHistory::new(vec![event(1, 0, vec![rotate(PUK, 1)], &[])]);
    assert_eq!(
        rotated_first.get_first_root_public_key().unwrap_err(),
        OckamError::InvalidInternalState
    );
}

#[test]
fn signature_keys_follow_the_kind_of_change() {
    let c = chain();
    let keys = ProfileChangeHistory::signature_keys(&[], &c[0]).unwrap();
    assert_eq!(keys.iter().map(|k| k.data.clone()).collect::<Vec<_>>(), vec![vec![10; 4]]);
    let keys = ProfileChangeHistory::signature_keys(&c[..1], &c[1]).unwrap();
    assert_eq!(
        keys.iter().map(|k| k.data.clone()).collect::<Vec<_>>(),
        vec![vec![20; 4], vec![10; 4]]
    );
    let keys = ProfileChangeHistory::signature_keys(&c[..2], &c[2]).unwrap();
    assert_eq!(
        keys.iter().map(|k| k.data.clone()).collect::<Vec<_>>(),
        vec![vec![21; 4], vec![20; 4], vec![10; 4]]
    );
}

#[test]
fn wrong_signatures_are_verify_failures() {
    let c = chain();
    let missing_root = event(2, 1, vec![create("truck", 20)], &[SignatureType::SelfSign]);
    assert_eq!(
        ProfileChangeHistory::signature_keys(&c[..1], &missing_root).unwrap_err(),
        OckamError::VerifyFailed
    );
    let root_on_first = event(1, 0, vec![create(PUK, 10)], &[SignatureType::SelfSign, SignatureType::RootSign]);
    assert_eq!(
        ProfileChangeHistory::signature_keys(&[], &root_on_first).unwrap_err(),
        OckamError::VerifyFailed
    );
    let prev_on_create = event(2, 1, vec![create("truck", 20)], &[SignatureType::PrevSign]);
    assert_eq!(
        ProfileChangeHistory::signature_keys(&c[..1], &prev_on_create).unwrap_err(),
        OckamError::VerifyFailed
    );
    let twice = event(2, 1, vec![create("truck", 20)], &[SignatureType::SelfSign, SignatureType::SelfSign]);
    assert_eq!(
        ProfileChangeHistory::signature_keys(&c[..1], &twice).unwrap_err(),
        OckamError::VerifyFailed
    );
    let rotate_unknown = event(2, 1, vec![rotate("boat", 1)], &[SignatureType::SelfSign, SignatureType::PrevSign]);
    assert_eq!(
        ProfileChangeHistory::signature_keys(&c[..1], &rotate_unknown).unwrap_err(),
        OckamError::InvalidInternalState
    );
    let empty = event(2, 1, vec![], &[]);
    assert_eq!(
        ProfileChangeHistory::signature_keys(&c[..1], &empty).unwrap_err(),
        OckamError::InvalidInternalState
    );
}

#[test]
fn event_id_must_match_the_digest() {
    let c = chain();
    assert!(ProfileChangeHistory::check_event_id(&c[0], [1; 32]).is_ok());
    assert_eq!(
        ProfileChangeHistory::check_event_id(&c[0], [2; 32]).unwrap_err(),
        OckamError::EventIdDoesntMatch
    );
}

#[test]
fn identifier_must_be_the_root_key_id() {
    let id = ProfileIdentifier::from_key_id("abc".to_string());
    assert!(id.check_root_key_id("abc".to_string()).is_ok());
    assert_eq!(
        id.check_root_key_id("abd".to_string()).unwrap_err(),
        OckamError::ProfileIdDoesntMatch
    );
}
