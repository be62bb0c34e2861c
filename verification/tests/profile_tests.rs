use std::cell::RefCell;
use std::rc::Rc;

use ockam_profile::change::{KeyAttributes, ProfileEventAttributes};
use ockam_profile::error::{CoreError, OckamError};
use ockam_profile::identifiers::ProfileIdentifier;
use ockam_profile::profile::{
    Profile, ProfileAuth, ProfileChanges, ProfileContacts, ProfileIdentity, ProfileSecrets,
};
use ockam_profile::vault::{
    Hasher, KeyId, KeyIdVault, PublicKey, Secret, SecretAttributes, SecretKey, SecretVault, Signer,
    Verifier,
};
use sha2::{Digest, Sha256};

/// A deterministic vault for tests: a secret's public key is a hash of it, and a
/// signature is a hash of the public key and the data, so that anyone holding the
/// public key can check it.
#[derive(Default)]
struct Store {
    secrets: Vec<[u8; 32]>,
    generated: u64,
}

#[derive(Clone, Default)]
struct TestVault(Rc<RefCell<Store>>);

fn digest(parts: &[&[u8]]) -> [u8; 32] {
    let mut h = Sha256::new();
    for p in parts {
        h.update(p);
    }
    h.finalize().into()
}

fn public_of(secret: &[u8; 32]) -> Vec<u8> {
    digest(&[b"public", secret]).to_vec()
}

fn key_id_of(public_key: &[u8]) -> String {
    digest(&[public_key]).iter().map(|b| format!("{:02x}", b)).collect()
}

const NOT_FOUND: u32 = 1;
const BAD_SIGNATURE: u32 = 2;

impl Hasher for TestVault {
    fn sha256(&mut self, data: &[u8]) -> Result<[u8; 32], CoreError> {
        Ok(digest(&[data]))
    }

    fn hkdf_sha256(
        &mut self,
        _salt: &Secret,
        _info: &[u8],
        _ikm: Option<&Secret>,
        _output_attributes: Vec<SecretAttributes>,
    ) -> Result<Vec<Secret>, CoreError> {
        Err(CoreError::Vault { code: NOT_FOUND })
    }
}

impl KeyIdVault for TestVault {
    fn get_secret_by_key_id(&mut self, key_id: &str) -> Result<Secret, CoreError> {
        let store = self.0.borrow();
        for (index, s) in store.secrets.iter().enumerate() {
            if key_id_of(&public_of(s)) == key_id {
                return Ok(Secret { index });
            }
        }
        Err(CoreError::Vault { code: NOT_FOUND })
    }

    fn compute_key_id_for_public_key(&mut self, public_key: &PublicKey) -> Result<KeyId, CoreError> {
        Ok(key_id_of(&public_key.data))
    }
}

impl SecretVault for TestVault {
    fn secret_generate(&mut self, _attributes: SecretAttributes) -> Result<Secret, CoreError> {
        let mut store = self.0.borrow_mut();
        store.generated += 1;
        let s = digest(&[b"secret", &store.generated.to_le_bytes()]);
        store.secrets.push(s);
        Ok(Secret { index: store.secrets.len() - 1 })
    }

    fn secret_import(&mut self, secret: &[u8], _attributes: SecretAttributes) -> Result<Secret, CoreError> {
        let mut store = self.0.borrow_mut();
        store.secrets.push(digest(&[secret]));
        Ok(Secret { index: store.secrets.len() - 1 })
    }

    fn secret_export(&mut self, context: &Secret) -> Result<SecretKey, CoreError> {
        let store = self.0.borrow();
        match store.secrets.get(context.index) {
            Some(s) => Ok(SecretKey { data: s.to_vec() }),
            None => Err(CoreError::Vault { code: NOT_FOUND }),
        }
    }

    fn secret_attributes_get(&mut self, _context: &Secret) -> Result<SecretAttributes, CoreError> {
        Err(CoreError::Vault { code: NOT_FOUND })
    }

    fn secret_public_key_get(&mut self, context: &Secret) -> Result<PublicKey, CoreError> {
        let store = self.0.borrow();
        match store.secrets.get(context.index) {
            Some(s) => Ok(PublicKey::new(public_of(s))),
            None => Err(CoreError::Vault { code: NOT_FOUND }),
        }
    }

    fn secret_destroy(&mut self, _context: Secret) -> Result<(), CoreError> {
        Ok(())
    }
}

impl Signer for TestVault {
    fn sign(&mut self, secret_key: &Secret, data: &[u8]) -> Result<Vec<u8>, CoreError> {
        let store = self.0.borrow();
        match store.secrets.get(secret_key.index) {
            Some(s) => Ok(digest(&[&public_of(s), data]).to_vec()),
            None => Err(CoreError::Vault { code: NOT_FOUND }),
        }
    }
}

impl Verifier for TestVault {
    fn verify(&mut self, signature: &[u8], public_key: &[u8], data: &[u8]) -> Result<(), CoreError> {
        if signature == &digest(&[public_key, data])[..] {
            Ok(())
        } else {
            Err(CoreError::Vault { code: BAD_SIGNATURE })
        }
    }
}

fn root_label() -> String {
    Profile::<TestVault>::PROFILE_UPDATE.to_string()
}

#[test]
fn test_new() {
    let vault = TestVault::default();
    let mut profile = Profile::create_with_attributes(None, vault.clone()).unwrap();

    profile.verify().unwrap();

    let root_key_attributes = KeyAttributes::new(root_label());

    let _alice_root_secret = profile.get_secret_key(&root_key_attributes).unwrap();
    let _alice_root_public_key = profile.get_public_key(&root_key_attributes).unwrap();

    let truck_key_attributes = KeyAttributes::new("Truck management".to_string());

    profile
        .create_key(truck_key_attributes.clone(), None)
        .unwrap();

    profile.verify().unwrap();

    let _alice_truck_secret = profile.get_secret_key(&truck_key_attributes).unwrap();
    let _alice_truck_public_key = profile.get_public_key(&truck_key_attributes).unwrap();

    profile
        .rotate_key(truck_key_attributes.clone(), None)
        .unwrap();

    profile.verify().unwrap();

    let _alice_truck_secret = profile.get_secret_key(&truck_key_attributes).unwrap();
    let _alice_truck_public_key = profile.get_public_key(&truck_key_attributes).unwrap();

    profile
        .rotate_key(root_key_attributes.clone(), None)
        .unwrap();

    profile.verify().unwrap();

    let _alice_root_secret = profile.get_secret_key(&root_key_attributes).unwrap();
    let _alice_root_public_key = profile.get_public_key(&root_key_attributes).unwrap();
}

#[test]
fn new_profile_has_one_event_and_no_contacts() {
    let mut profile = Profile::create(TestVault::default()).unwrap();
    assert_eq!(profile.change_events().len(), 1);
    assert_eq!(profile.contacts().len(), 0);
    assert!(profile.verify().is_ok());
}

#[test]
fn created_key_is_the_current_key() {
    let mut profile = Profile::create(TestVault::default()).unwrap();
    let truck = KeyAttributes::new("Truck management".to_string());
    profile.create_key(truck.clone(), None).unwrap();
    let events = profile.change_events();
    assert_eq!(events.len(), 2);
    let last = &events[1];
    assert_eq!(last.changes.prev_event_id.hash, events[0].identifier.hash);
    assert_eq!(last.signatures.len(), 2);
    let created = last.changes.data[0].public_key().data.clone();
    assert_eq!(profile.get_public_key(&truck).unwrap().data, created);

    profile.rotate_key(truck.clone(), None).unwrap();
    let events = profile.change_events();
    assert_eq!(events.len(), 3);
    assert_eq!(events[2].signatures.len(), 3);
    let rotated = events[2].changes.data[0].public_key().data.clone();
    assert_ne!(rotated, created);
    assert_eq!(profile.get_public_key(&truck).unwrap().data, rotated);
    assert!(profile.verify().is_ok());
}

#[test]
fn unknown_key_is_an_internal_state_error() {
    let mut profile = Profile::create(TestVault::default()).unwrap();
    let unknown = KeyAttributes::new("unknown".to_string());
    assert_eq!(
        profile.get_public_key(&unknown).unwrap_err(),
        CoreError::Ockam(OckamError::InvalidInternalState)
    );
    assert_eq!(
        profile.get_secret_key(&unknown).unwrap_err(),
        CoreError::Ockam(OckamError::InvalidInternalState)
    );
    let before = profile.change_events().len();
    assert!(profile.rotate_key(unknown, None).is_err());
    assert_eq!(profile.change_events().len(), before);
}

#[test]
fn tampered_history_fails_verification() {
    let vault = TestVault::default();
    let profile = Profile::create(vault.clone()).unwrap();
    let mut contact = profile.to_contact();
    contact.change_history.events[0].signatures[0].data[0] ^= 1;
    let mut other = Profile::create(vault).unwrap();
    assert_eq!(
        other.verify_and_add_contact(contact).unwrap_err(),
        CoreError::Vault { code: BAD_SIGNATURE }
    );
    assert_eq!(other.contacts().len(), 0);
}

#[test]
fn wrong_identifier_fails_verification() {
    let vault = TestVault::default();
    let mut profile = Profile::create(vault.clone()).unwrap();
    let genuine = profile.to_contact();
    let wrong = ProfileIdentifier::from_key_id("not the root key".to_string());
    let mut forged = Profile::new(wrong, genuine.change_history.events, ockam_profile::contact::ContactsDb::new(), vault);
    assert_eq!(
        forged.verify().unwrap_err(),
        CoreError::Ockam(OckamError::ProfileIdDoesntMatch)
    );
    assert!(profile.verify().is_ok());
}

#[test]
fn contact_is_added_and_found() {
    let vault = TestVault::default();
    let alice = Profile::create(vault.clone()).unwrap();
    let mut bob = Profile::create(vault).unwrap();
    let alice_id = alice.identifier().clone();
    assert!(bob.get_contact(&alice_id).is_none());
    bob.verify_and_add_contact(alice.to_contact()).unwrap();
    let found = bob.get_contact(&alice_id).unwrap();
    assert_eq!(found.identifier(), &alice_id);
    assert_eq!(found.change_events().len(), 1);
}

#[test]
fn unknown_contact_is_not_found() {
    let vault = TestVault::default();
    let alice = Profile::create(vault.clone()).unwrap();
    let mut bob = Profile::create(vault).unwrap();
    assert_eq!(
        bob.verify_and_update_contact(alice.identifier(), Vec::new()).unwrap_err(),
        CoreError::Ockam(OckamError::ContactNotFound)
    );
    assert_eq!(
        bob.verify_authentication_proof(&[0u8; 32], alice.identifier(), &[0u8]).unwrap_err(),
        CoreError::Ockam(OckamError::ContactNotFound)
    );
}

#[test]
fn authentication_proof_is_accepted_and_tied_to_state() {
    let vault = TestVault::default();
    let mut alice = Profile::create(vault.clone()).unwrap();
    let mut bob = Profile::create(vault).unwrap();
    bob.verify_and_add_contact(alice.to_contact()).unwrap();
    let state = [7u8; 32];
    let proof = alice.generate_authentication_proof(&state).unwrap();
    assert_eq!(proof[0] as usize, proof.len() - 1);
    assert!(bob.verify_authentication_proof(&state, alice.identifier(), &proof).unwrap());
    assert!(!bob.verify_authentication_proof(&[8u8; 32], alice.identifier(), &proof).unwrap());
    assert_eq!(
        bob.verify_authentication_proof(&state, alice.identifier(), &[5u8, 1]).unwrap_err(),
        CoreError::Ockam(OckamError::BareError)
    );
}

#[test]
fn contact_follows_rotations() {
    let vault = TestVault::default();
    let mut alice = Profile::create(vault.clone()).unwrap();
    let mut bob = Profile::create(vault).unwrap();
    bob.verify_and_add_contact(alice.to_contact()).unwrap();
    let alice_id = alice.identifier().clone();
    let known = alice.change_events().len();
    alice.rotate_key(KeyAttributes::new(root_label()), None).unwrap();
    let new_events = ockam_profile::change::copy_events(&alice.change_events()[known..]);
    bob.verify_and_update_contact(&alice_id, new_events).unwrap();
    assert_eq!(bob.get_contact(&alice_id).unwrap().change_events().len(), 2);
    let updated = bob.get_contact(&alice_id).unwrap().duplicate();
    assert!(bob.verify_contact(&updated).is_ok());
    let state = [1u8; 32];
    let proof = alice.generate_authentication_proof(&state).unwrap();
    assert!(bob.verify_authentication_proof(&state, &alice_id, &proof).unwrap());
}

#[test]
fn out_of_order_events_are_refused() {
    let vault = TestVault::default();
    let mut alice = Profile::create(vault.clone()).unwrap();
    let mut bob = Profile::create(vault).unwrap();
    bob.verify_and_add_contact(alice.to_contact()).unwrap();
    let alice_id = alice.identifier().clone();
    alice.rotate_key(KeyAttributes::new(root_label()), None).unwrap();
    alice.rotate_key(KeyAttributes::new(root_label()), None).unwrap();
    let only_last = ockam_profile::change::copy_events(&alice.change_events()[2..]);
    assert_eq!(
        bob.verify_and_update_contact(&alice_id, only_last).unwrap_err(),
        CoreError::Ockam(OckamError::EventIdDoesntMatch)
    );
    assert_eq!(bob.get_contact(&alice_id).unwrap().change_events().len(), 1);
}

#[test]
fn update_without_verification_checks_order() {
    let vault = TestVault::default();
    let mut alice = Profile::create(vault.clone()).unwrap();
    let bob = Profile::create(vault).unwrap();
    let foreign = ockam_profile::change::copy_events(bob.change_events());
    let event = foreign.into_iter().next().unwrap();
    assert_eq!(
        alice.update_no_verification(event).unwrap_err(),
        CoreError::Ockam(OckamError::EventIdDoesntMatch)
    );
    assert_eq!(alice.change_events().len(), 1);
}

#[test]
fn test_update() {
    let vault = TestVault::default();
    let mut alice = Profile::create_with_attributes(None, vault.clone()).unwrap();

    let mut bob = Profile::create_with_attributes(None, vault).unwrap();

    // Receive this from Alice over the network (the binary form is the application's)
    let contact_alice = alice.to_contact();
    let alice_id = contact_alice.identifier().clone();
    // Bob adds Alice to contact list
    bob.verify_and_add_contact(contact_alice).unwrap();

    alice
        .rotate_key(KeyAttributes::new(root_label()), None)
        .unwrap();

    let index_a = alice.change_events().len();
    let change_events = &alice.change_events()[index_a..];
    let change_events = ockam_profile::change::copy_events(change_events);

    // Receive from Alice
    bob.verify_and_update_contact(&alice_id, change_events)
        .unwrap();
}

#[test]
fn extra_signature_is_a_verify_failure() {
    let vault = TestVault::default();
    let alice = Profile::create(vault.clone()).unwrap();
    let mut contact = alice.to_contact();
    let extra = ockam_profile::change::Signature::new(
        ockam_profile::change::SignatureType::PrevSign,
        vec![0; 32],
    );
    contact.change_history.events[0].signatures.push(extra);
    let mut bob = Profile::create(vault).unwrap();
    assert_eq!(
        bob.verify_and_add_contact(contact).unwrap_err(),
        CoreError::Ockam(OckamError::VerifyFailed)
    );
}

#[test]
fn tampered_changes_do_not_match_the_event_id() {
    let vault = TestVault::default();
    let alice = Profile::create(vault.clone()).unwrap();
    let mut contact = alice.to_contact();
    contact.change_history.events[0].changes.data[0].version = 2;
    let mut bob = Profile::create(vault).unwrap();
    assert_eq!(
        bob.verify_and_add_contact(contact).unwrap_err(),
        CoreError::Ockam(OckamError::EventIdDoesntMatch)
    );
}

#[test]
fn attributes_are_recorded() {
    let mut attributes = ProfileEventAttributes::new();
    attributes.insert("name".to_string(), "alice".to_string());
    let mut profile = Profile::create_with_attributes(Some(attributes), TestVault::default()).unwrap();
    assert_eq!(
        profile.change_events()[0].changes.data[0].attributes.entries(),
        &[("name".to_string(), "alice".to_string())][..]
    );
    assert!(profile.verify().is_ok());
}

#[test]
fn setting_an_attribute_replaces_its_value() {
    let mut attributes = ProfileEventAttributes::new();
    attributes.insert("name".to_string(), "alice".to_string());
    attributes.insert("role".to_string(), "driver".to_string());
    attributes.insert("name".to_string(), "bob".to_string());
    assert_eq!(attributes.len(), 2);
    assert_eq!(attributes.get(&"name".to_string()), Some(&"bob".to_string()));
    assert_eq!(attributes.get(&"role".to_string()), Some(&"driver".to_string()));
    assert_eq!(attributes.get(&"age".to_string()), None);
    assert_eq!(
        attributes.entries(),
        &[
            ("name".to_string(), "bob".to_string()),
            ("role".to_string(), "driver".to_string())
        ][..]
    );
}

#[test]
fn created_profile_is_named_after_its_root_key() {
    let profile = Profile::create(TestVault::default()).unwrap();
    let first = &profile.change_events()[0];
    let root_public_key = &first.changes.data[0].public_key().data;
    assert_eq!(profile.identifier().key_id(), &key_id_of(root_public_key));
    assert_eq!(
        first.changes.prev_event_id.hash,
        digest(&[Profile::<TestVault>::NO_EVENT.as_bytes()])
    );
    let encoded = ockam_profile::encoding::encode_changes_binary(&first.changes).unwrap();
    assert_eq!(first.identifier.hash, digest(&[&encoded]));
}

#[test]
fn update_with_no_events_changes_nothing() {
    let vault = TestVault::default();
    let alice = Profile::create(vault.clone()).unwrap();
    let mut bob = Profile::create(vault).unwrap();
    bob.verify_and_add_contact(alice.to_contact()).unwrap();
    assert!(bob.verify_and_update_contact(alice.identifier(), Vec::new()).is_ok());
    assert_eq!(bob.get_contact(alice.identifier()).unwrap().change_events().len(), 1);
}

#[test]
fn empty_profile_fails_verification() {
    let vault = TestVault::default();
    let id = ProfileIdentifier::from_key_id("nobody".to_string());
    let mut empty = Profile::new(id, Vec::new(), ockam_profile::contact::ContactsDb::new(), vault);
    assert_eq!(
        empty.verify().unwrap_err(),
        CoreError::Ockam(OckamError::VerifyFailed)
    );
}

#[test]
fn empty_history_verifies_without_the_vault() {
    let mut vault = TestVault::default();
    let history = ockam_profile::history::ProfileChangeHistory::new(Vec::new());
    assert!(history.verify_all_existing_events(&mut vault).is_ok());
}
