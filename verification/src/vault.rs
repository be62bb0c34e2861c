use vstd::prelude::*;

use crate::error::CoreError;

verus! {

/// A handle to a secret that a vault keeps.
#[derive(Debug, Clone, Copy, PartialEq, Eq, Structural)]
pub struct Secret {
    pub index: usize,
}

/// A public key, in the encoding of its key type.
#[derive(Debug)]
pub struct PublicKey {
    pub data: Vec<u8>,
}

impl View for PublicKey {
    type V = Seq<u8>;

    open spec fn view(&self) -> Seq<u8> {
        self.data@
    }
}

impl PublicKey {
    pub fn new(data: Vec<u8>) -> (k: PublicKey)
        ensures
            k@ == data@,
    {
        PublicKey { data }
    }

    /// The key's bytes.
    pub fn as_slice(&self) -> (s: &[u8])
        ensures
            s@ == self@,
    {
        self.data.as_slice()
    }

    /// A copy of the key.
    pub fn duplicate(&self) -> (k: PublicKey)
        ensures
            k@ == self@,
    {
        PublicKey { data: copy_bytes(self.data.as_slice()) }
    }
}

/// The exported bytes of a secret.
#[derive(Debug)]
pub struct SecretKey {
    pub data: Vec<u8>,
}

/// The identifier of a key, derived from its public key.
pub type KeyId = String;

/// The kind of a secret.
#[derive(Debug, Clone, Copy, PartialEq, Eq, Structural)]
pub enum SecretType {
    Buffer,
    Aes,
    Curve25519,
    P256,
}

/// Whether a secret outlives the session that made it.
#[derive(Debug, Clone, Copy, PartialEq, Eq, Structural)]
pub enum SecretPersistence {
    Ephemeral,
    Persistent,
}

/// The attributes of a secret.
#[derive(Debug, Clone, Copy, PartialEq, Eq, Structural)]
pub struct SecretAttributes {
    pub stype: SecretType,
    pub persistence: SecretPersistence,
    pub length: usize,
}

/// The length in bytes of a Curve25519 secret.
pub const CURVE25519_SECRET_LENGTH: usize = 32;

impl SecretAttributes {
    pub fn new(stype: SecretType, persistence: SecretPersistence, length: usize) -> (a: SecretAttributes)
        ensures
            a.stype == stype,
            a.persistence == persistence,
            a.length == length,
    {
        SecretAttributes { stype, persistence, length }
    }
}

/// A fresh copy of a byte slice.
pub fn copy_bytes(s: &[u8]) -> (v: Vec<u8>)
    ensures
        v@ == s@,
{
    let mut v: Vec<u8> = Vec::new();
    let mut i: usize = 0;
    while i < s.len()
        invariant
            i <= s@.len(),
            v@ == s@.subrange(0, i as int),
        decreases s@.len() - i,
    {
        v.push(s[i]);
        i = i + 1;
    }
    assert(v@ =~= s@);
    v
}

/// Byte-wise equality of two slices.
pub fn bytes_eq(a: &[u8], b: &[u8]) -> (r: bool)
    ensures
        r == (a@ == b@),
{
    if a.len() != b.len() {
        return false;
    }
    let mut i: usize = 0;
    while i < a.len()
        invariant
            a@.len() == b@.len(),
            i <= a@.len(),
            forall|j: int| 0 <= j < i ==> a@[j] == b@[j],
        decreases a@.len() - i,
    {
        if a[i] != b[i] {
            return false;
        }
        i = i + 1;
    }
    assert(a@ =~= b@);
    true
}

// The vault traits are implemented by the users of the library. Each method's result
// is described by a spec function of the implementing type: for the methods whose
// result is a function of their arguments alone (hashing, key identifiers, signature
// verification), a function of the arguments; besides, for every method, a relation
// between the vault's state before the call, the arguments, the result and the
// vault's state after the call. An implementation
// defines these functions and meets the contracts below; the defaults stand for
// functions of which nothing is known, so code that is generic over a vault learns
// only what the contracts say.

/// SHA-256 hashing.
pub trait Hasher: Sized {
    /// The SHA-256 digest of `data`.
    closed spec fn sha256_spec(data: Seq<u8>) -> Seq<u8> {
        arbitrary()
    }

    /// Whether `r` is what this vault answers to a request to hash `data`, leaving the vault as `after`.
    closed spec fn sha256_result(&self, data: Seq<u8>, r: Result<[u8; 32], CoreError>, after: Self) -> bool {
        arbitrary()
    }

    /// Whether `r` is what this vault answers to an HKDF request, leaving the vault as `after`.
    closed spec fn hkdf_sha256_result(
        &self,
        salt: Secret,
        info: Seq<u8>,
        ikm: Option<Secret>,
        output_attributes: Seq<SecretAttributes>,
        r: Result<Vec<Secret>, CoreError>,
        after: Self,
    ) -> bool {
        arbitrary()
    }

    /// The SHA-256 digest of `data`.
    fn sha256(&mut self, data: &[u8]) -> (r: Result<[u8; 32], CoreError>)
        ensures
            old(self).sha256_result(data@, r, *final(self)),
            r matches Ok(h) ==> h@ == Self::sha256_spec(data@),
    ;

    /// HKDF with SHA-256: derives secrets with the given attributes.
    fn hkdf_sha256(
        &mut self,
        salt: &Secret,
        info: &[u8],
        ikm: Option<&Secret>,
        output_attributes: Vec<SecretAttributes>,
    ) -> (r: Result<Vec<Secret>, CoreError>)
        ensures
            old(self).hkdf_sha256_result(
                *salt,
                info@,
                match ikm {
                    Some(k) => Some(*k),
                    None => None,
                },
                output_attributes@,
                r,
                *final(self),
            ),
    ;
}

/// Lookup of secrets by the identifier of their public key.
pub trait KeyIdVault: Sized {
    /// The identifier of a public key.
    closed spec fn key_id_spec(public_key: Seq<u8>) -> Seq<char> {
        arbitrary()
    }

    /// Whether `r` is what this vault answers to a lookup of the secret whose public
    /// key has the identifier `key_id`, leaving the vault as `after`.
    closed spec fn get_secret_by_key_id_result(&self, key_id: Seq<char>, r: Result<Secret, CoreError>, after: Self) -> bool {
        arbitrary()
    }

    /// Whether `r` is what this vault answers to a request for the identifier of a
    /// public key, leaving the vault as `after`.
    closed spec fn compute_key_id_result(&self, public_key: Seq<u8>, r: Result<KeyId, CoreError>, after: Self) -> bool {
        arbitrary()
    }

    /// The secret whose public key has the given identifier.
    fn get_secret_by_key_id(&mut self, key_id: &str) -> (r: Result<Secret, CoreError>)
        ensures
            old(self).get_secret_by_key_id_result(key_id@, r, *final(self)),
    ;

    /// The identifier of a public key.
    fn compute_key_id_for_public_key(&mut self, public_key: &PublicKey) -> (r: Result<KeyId, CoreError>)
        ensures
            old(self).compute_key_id_result(public_key@, r, *final(self)),
            r matches Ok(k) ==> k@ == Self::key_id_spec(public_key@),
    ;
}

/// Storage of secrets.
pub trait SecretVault: Sized {
    closed spec fn secret_generate_result(&self, attributes: SecretAttributes, r: Result<Secret, CoreError>, after: Self) -> bool {
        arbitrary()
    }

    closed spec fn secret_import_result(
        &self,
        secret: Seq<u8>,
        attributes: SecretAttributes,
        r: Result<Secret, CoreError>,
        after: Self,
    ) -> bool {
        arbitrary()
    }

    closed spec fn secret_export_result(&self, context: Secret, r: Result<SecretKey, CoreError>, after: Self) -> bool {
        arbitrary()
    }

    closed spec fn secret_attributes_get_result(
        &self,
        context: Secret,
        r: Result<SecretAttributes, CoreError>,
        after: Self,
    ) -> bool {
        arbitrary()
    }

    closed spec fn secret_public_key_get_result(&self, context: Secret, r: Result<PublicKey, CoreError>, after: Self) -> bool {
        arbitrary()
    }

    closed spec fn secret_destroy_result(&self, context: Secret, r: Result<(), CoreError>, after: Self) -> bool {
        arbitrary()
    }

    fn secret_generate(&mut self, attributes: SecretAttributes) -> (r: Result<Secret, CoreError>)
        ensures
            old(self).secret_generate_result(attributes, r, *final(self)),
    ;

    fn secret_import(&mut self, secret: &[u8], attributes: SecretAttributes) -> (r: Result<
        Secret,
        CoreError,
    >)
        ensures
            old(self).secret_import_result(secret@, attributes, r, *final(self)),
    ;

    fn secret_export(&mut self, context: &Secret) -> (r: Result<SecretKey, CoreError>)
        ensures
            old(self).secret_export_result(*context, r, *final(self)),
    ;

    fn secret_attributes_get(&mut self, context: &Secret) -> (r: Result<SecretAttributes, CoreError>)
        ensures
            old(self).secret_attributes_get_result(*context, r, *final(self)),
    ;

    fn secret_public_key_get(&mut self, context: &Secret) -> (r: Result<PublicKey, CoreError>)
        ensures
            old(self).secret_public_key_get_result(*context, r, *final(self)),
    ;

    fn secret_destroy(&mut self, context: Secret) -> (r: Result<(), CoreError>)
        ensures
            old(self).secret_destroy_result(context, r, *final(self)),
    ;
}

/// Signing with a secret key.
pub trait Signer: Sized {
    /// Whether `r` is what this vault answers to a request to sign `data` with
    /// `secret_key`, leaving the vault as `after`.
    closed spec fn sign_result(&self, secret_key: Secret, data: Seq<u8>, r: Result<Vec<u8>, CoreError>, after: Self) -> bool {
        arbitrary()
    }

    fn sign(&mut self, secret_key: &Secret, data: &[u8]) -> (r: Result<Vec<u8>, CoreError>)
        ensures
            old(self).sign_result(*secret_key, data@, r, *final(self)),
    ;
}

/// Verification of signatures.
pub trait Verifier: Sized {
    /// Whether `signature` is a valid signature of `data` under `public_key`.
    closed spec fn verifies(signature: Seq<u8>, public_key: Seq<u8>, data: Seq<u8>) -> bool {
        arbitrary()
    }

    /// Whether `r` is what this vault answers to a verification request, leaving the vault as `after`.
    closed spec fn verify_result(
        &self,
        signature: Seq<u8>,
        public_key: Seq<u8>,
        data: Seq<u8>,
        r: Result<(), CoreError>,
        after: Self,
    ) -> bool {
        arbitrary()
    }

    /// `Ok` exactly when `signature` is a valid signature of `data` under `public_key`.
    fn verify(&mut self, signature: &[u8], public_key: &[u8], data: &[u8]) -> (r: Result<
        (),
        CoreError,
    >)
        ensures
            old(self).verify_result(signature@, public_key@, data@, r, *final(self)),
            r is Ok <==> Self::verifies(signature@, public_key@, data@),
    ;
}

/// Key agreement.
pub trait AsymmetricVault: Sized {
    closed spec fn ec_diffie_hellman_result(
        &self,
        context: Secret,
        peer_public_key: Seq<u8>,
        r: Result<Secret, CoreError>,
        after: Self,
    ) -> bool {
        arbitrary()
    }

    fn ec_diffie_hellman(&mut self, context: &Secret, peer_public_key: &[u8]) -> (r: Result<
        Secret,
        CoreError,
    >)
        ensures
            old(self).ec_diffie_hellman_result(*context, peer_public_key@, r, *final(self)),
    ;
}

/// Authenticated symmetric encryption.
pub trait SymmetricVault: Sized {
    closed spec fn aead_aes_gcm_encrypt_result(
        &self,
        context: Secret,
        plaintext: Seq<u8>,
        nonce: Seq<u8>,
        aad: Seq<u8>,
        r: Result<Vec<u8>, CoreError>,
        after: Self,
    ) -> bool {
        arbitrary()
    }

    closed spec fn aead_aes_gcm_decrypt_result(
        &self,
        context: Secret,
        cipher_text: Seq<u8>,
        nonce: Seq<u8>,
        aad: Seq<u8>,
        r: Result<Vec<u8>, CoreError>,
        after: Self,
    ) -> bool {
        arbitrary()
    }

    fn aead_aes_gcm_encrypt(
        &mut self,
        context: &Secret,
        plaintext: &[u8],
        nonce: &[u8],
        aad: &[u8],
    ) -> (r: Result<Vec<u8>, CoreError>)
        ensures
            old(self).aead_aes_gcm_encrypt_result(*context, plaintext@, nonce@, aad@, r, *final(self)),
    ;

    fn aead_aes_gcm_decrypt(
        &mut self,
        context: &Secret,
        cipher_text: &[u8],
        nonce: &[u8],
        aad: &[u8],
    ) -> (r: Result<Vec<u8>, CoreError>)
        ensures
            old(self).aead_aes_gcm_decrypt_result(*context, cipher_text@, nonce@, aad@, r, *final(self)),
    ;
}

/// The error domain of a vault.
pub trait ErrorVault {
    fn error_domain(&self) -> &'static str;
}

/// What a profile needs of a vault.
pub trait ProfileVault: SecretVault + KeyIdVault + Hasher + Signer + Verifier {

}

impl<D> ProfileVault for D where D: SecretVault + KeyIdVault + Hasher + Signer + Verifier {

}

/// Errors of the software vault.
pub struct VaultError;

impl VaultError {
    /// The error domain of the software vault.
    pub const DOMAIN_NAME: &'static str = "OCKAM_VAULT";
}

/// The software implementation of a vault.
pub struct SoftwareVault;

impl SoftwareVault {
    /// Return the error domain for this Vault
    pub fn error_domain_static() -> (d: &'static str)
        ensures
            d@ == "OCKAM_VAULT"@,
    {
        VaultError::DOMAIN_NAME
    }
}

impl ErrorVault for SoftwareVault {
    fn error_domain(&self) -> (d: &'static str)
        ensures
            d@ == "OCKAM_VAULT"@,
    {
        Self::error_domain_static()
    }
}

} // verus!
