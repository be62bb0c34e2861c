use ockam_profile::error::CoreError;
use ockam_profile::vault::{
    AsymmetricVault, ErrorVault, Hasher, KeyId, KeyIdVault, PublicKey, Secret, SecretAttributes,
    SecretKey, SecretPersistence, SecretType, SecretVault, Signer, SoftwareVault, SymmetricVault,
    Verifier,
};
use ockam_profile::vault_worker::{VaultRequestMessage, VaultResponseMessage, VaultWorker};
use sha2::{Digest, Sha256};

/// A vault that answers every call from fixed rules, to exercise the worker.
struct FixedVault {
    generated: usize,
}

const FAILED: u32 = 9;

fn digest(data: &[u8]) -> [u8; 32] {
    Sha256::digest(data).into()
}

impl Hasher for FixedVault {
    fn sha256(&mut self, data: &[u8]) -> Result<[u8; 32], CoreError> {
        Ok(digest(data))
    }
    fn hkdf_sha256(
        &mut self,
        _salt: &Secret,
        _info: &[u8],
        _ikm: Option<&Secret>,
        output_attributes: Vec<SecretAttributes>,
    ) -> Result<Vec<Secret>, CoreError> {
        Ok((0..output_attributes.len()).map(|index| Secret { index }).collect())
    }
}

impl KeyIdVault for FixedVault {
    fn get_secret_by_key_id(&mut self, _key_id: &str) -> Result<Secret, CoreError> {
        Err(CoreError::Vault { code: FAILED })
    }
    fn compute_key_id_for_public_key(&mut self, public_key: &PublicKey) -> Result<KeyId, CoreError> {
        Ok(format!("{}", public_key.data.len()))
    }
}

impl SecretVault for FixedVault {
    fn secret_generate(&mut self, _attributes: SecretAttributes) -> Result<Secret, CoreError> {
        self.generated += 1;
        Ok(Secret { index: self.generated })
    }
    fn secret_import(&mut self, _secret: &[u8], _attributes: SecretAttributes) -> Result<Secret, CoreError> {
        Ok(Secret { index: 0 })
    }
    fn secret_export(&mut self, context: &Secret) -> Result<SecretKey, CoreError> {
        Ok(SecretKey { data: vec![context.index as u8] })
    }
    fn secret_attributes_get(&mut self, _context: &Secret) -> Result<SecretAttributes, CoreError> {
        Ok(SecretAttributes::new(SecretType::Aes, SecretPersistence::Ephemeral, 16))
    }
    fn secret_public_key_get(&mut self, context: &Secret) -> Result<PublicKey, CoreError> {
        Ok(PublicKey::new(vec![context.index as u8; 32]))
    }
    fn secret_destroy(&mut self, _context: Secret) -> Result<(), CoreError> {
        Ok(())
    }
}

impl Signer for FixedVault {
    fn sign(&mut self, _secret_key: &Secret, data: &[u8]) -> Result<Vec<u8>, CoreError> {
        Ok(digest(data).to_vec())
    }
}

impl Verifier for FixedVault {
    fn verify(&mut self, signature: &[u8], _public_key: &[u8], data: &[u8]) -> Result<(), CoreError> {
        if signature == &digest(data)[..] {
            Ok(())
        } else {
            Err(CoreError::Vault { code: FAILED })
        }
    }
}

impl AsymmetricVault for FixedVault {
    fn ec_diffie_hellman(&mut self, _context: &Secret, _peer_public_key: &[u8]) -> Result<Secret, CoreError> {
        Err(CoreError::Vault { code: FAILED })
    }
}

impl SymmetricVault for FixedVault {
    fn aead_aes_gcm_encrypt(&mut self, _context: &Secret, plaintext: &[u8], _nonce: &[u8], _aad: &[u8]) -> Result<Vec<u8>, CoreError> {
        Ok(plaintext.iter().rev().cloned().collect())
    }
    fn aead_aes_gcm_decrypt(&mut self, _context: &Secret, cipher_text: &[u8], _nonce: &[u8], _aad: &[u8]) -> Result<Vec<u8>, CoreError> {
        Ok(cipher_text.iter().rev().cloned().collect())
    }
}

impl ErrorVault for FixedVault {
    fn error_domain(&self) -> &'static str {
        "FIXED"
    }
}

fn worker() -> VaultWorker<FixedVault> {
    VaultWorker::new(FixedVault { generated: 0 })
}

#[test]
fn software_vault_error_domain() {
    assert_eq!(SoftwareVault::error_domain_static(), "OCKAM_VAULT");
    assert_eq!(SoftwareVault.error_domain(), "OCKAM_VAULT");
}

#[test]
fn sha256_request_is_answered_with_the_digest() {
    let mut w = worker();
    match w.handle_request(VaultRequestMessage::Sha256 { data: b"abc".to_vec() }) {
        Ok(VaultResponseMessage::Sha256(h)) => assert_eq!(h, digest(b"abc")),
        _ => panic!("wrong response"),
    }
}

#[test]
fn secret_requests_are_answered_in_kind() {
    let mut w = worker();
    match w.handle_request(VaultRequestMessage::SecretGenerate {
        attributes: SecretAttributes::new(SecretType::Curve25519, SecretPersistence::Persistent, 32),
    }) {
        Ok(VaultResponseMessage::SecretGenerate(s)) => assert_eq!(s.index, 1),
        _ => panic!("wrong response"),
    }
    match w.handle_request(VaultRequestMessage::SecretPublicKeyGet { context: Secret { index: 3 } }) {
        Ok(VaultResponseMessage::SecretPublicKeyGet(k)) => assert_eq!(k.data, vec![3u8; 32]),
        _ => panic!("wrong response"),
    }
    match w.handle_request(VaultRequestMessage::SecretDestroy { context: Secret { index: 3 } }) {
        Ok(VaultResponseMessage::SecretDestroy) => {}
        _ => panic!("wrong response"),
    }
    match w.handle_request(VaultRequestMessage::HkdfSha256 {
        salt: Secret { index: 0 },
        info: vec![],
        ikm: None,
        output_attributes: vec![
            SecretAttributes::new(SecretType::Aes, SecretPersistence::Ephemeral, 16),
            SecretAttributes::new(SecretType::Aes, SecretPersistence::Ephemeral, 16),
        ],
    }) {
        Ok(VaultResponseMessage::HkdfSha256(v)) => assert_eq!(v.len(), 2),
        _ => panic!("wrong response"),
    }
    match w.handle_request(VaultRequestMessage::AeadAesGcmEncrypt {
        context: Secret { index: 0 },
        plaintext: vec![1, 2, 3],
        nonce: vec![],
        aad: vec![],
    }) {
        Ok(VaultResponseMessage::AeadAesGcmEncrypt(c)) => assert_eq!(c, vec![3, 2, 1]),
        _ => panic!("wrong response"),
    }
}

#[test]
fn failed_call_is_answered_by_its_error() {
    let mut w = worker();
    match w.handle_request(VaultRequestMessage::GetSecretByKeyId { key_id: "x".to_string() }) {
        Err(e) => assert_eq!(e, CoreError::Vault { code: FAILED }),
        _ => panic!("wrong response"),
    }
    match w.handle_request(VaultRequestMessage::EcDiffieHellman {
        context: Secret { index: 0 },
        peer_public_key: PublicKey::new(vec![0; 32]),
    }) {
        Err(e) => assert_eq!(e, CoreError::Vault { code: FAILED }),
        _ => panic!("wrong response"),
    }
}

#[test]
fn verify_request_never_fails() {
    let mut w = worker();
    let good = digest(b"data").to_vec();
    match w.handle_request(VaultRequestMessage::Verify {
        signature: good,
        public_key: PublicKey::new(vec![]),
        data: b"data".to_vec(),
    }) {
        Ok(VaultResponseMessage::Verify(b)) => assert!(b),
        _ => panic!("wrong response"),
    }
    match w.handle_request(VaultRequestMessage::Verify {
        signature: vec![0; 32],
        public_key: PublicKey::new(vec![]),
        data: b"data".to_vec(),
    }) {
        Ok(VaultResponseMessage::Verify(b)) => assert!(!b),
        _ => panic!("wrong response"),
    }
}
