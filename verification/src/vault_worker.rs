//! A worker that exposes a vault's API as request and response messages.
use vstd::prelude::*;

use crate::error::CoreError;
use crate::vault::{
    AsymmetricVault, ErrorVault, Hasher, KeyId, KeyIdVault, PublicKey, Secret, SecretAttributes,
    SecretKey, SecretVault, Signer, SymmetricVault, Verifier,
};

verus! {

/// Super-trait of traits required for a Vault Worker.
pub trait VaultTrait: AsymmetricVault + Hasher + KeyIdVault + SecretVault + Signer + SymmetricVault + Verifier + ErrorVault + Send + 'static {

}

impl<V> VaultTrait for V where
    V: AsymmetricVault + Hasher + KeyIdVault + SecretVault + Signer + SymmetricVault + Verifier + ErrorVault + Send + 'static {

}

/// A request to a vault worker.
#[derive(Debug)]
pub enum VaultRequestMessage {
    EcDiffieHellman { context: Secret, peer_public_key: PublicKey },
    Sha256 { data: Vec<u8> },
    HkdfSha256 {
        salt: Secret,
        info: Vec<u8>,
        ikm: Option<Secret>,
        output_attributes: Vec<SecretAttributes>,
    },
    GetSecretByKeyId { key_id: KeyId },
    ComputeKeyIdForPublicKey { public_key: PublicKey },
    SecretGenerate { attributes: SecretAttributes },
    SecretImport { secret: Vec<u8>, attributes: SecretAttributes },
    SecretExport { context: Secret },
    SecretAttributesGet { context: Secret },
    SecretPublicKeyGet { context: Secret },
    SecretDestroy { context: Secret },
    Sign { secret_key: Secret, data: Vec<u8> },
    AeadAesGcmEncrypt { context: Secret, plaintext: Vec<u8>, nonce: Vec<u8>, aad: Vec<u8> },
    AeadAesGcmDecrypt { context: Secret, cipher_text: Vec<u8>, nonce: Vec<u8>, aad: Vec<u8> },
    Verify { signature: Vec<u8>, public_key: PublicKey, data: Vec<u8> },
}

/// The answer of a vault worker to a request.
#[derive(Debug)]
pub enum VaultResponseMessage {
    EcDiffieHellman(Secret),
    Sha256([u8; 32]),
    HkdfSha256(Vec<Secret>),
    GetSecretByKeyId(Secret),
    ComputeKeyIdForPublicKey(KeyId),
    SecretGenerate(Secret),
    SecretImport(Secret),
    SecretExport(SecretKey),
    SecretAttributesGet(SecretAttributes),
    SecretPublicKeyGet(PublicKey),
    SecretDestroy,
    Sign(Vec<u8>),
    AeadAesGcmEncrypt(Vec<u8>),
    AeadAesGcmDecrypt(Vec<u8>),
    Verify(bool),
}

/// Whether `r` is what a worker exposing `vault` answers to `request`, leaving the
/// vault as `after`: the one vault method that the request names, called on the vault
/// as it was, with the request's fields in order, its result carried unchanged in the
/// response of the same name, or its error returned unchanged, and the vault as that
/// call left it; a verification is answered by whether the signature verifies, never
/// by an error.
pub open spec fn answers<V: VaultTrait>(
    vault: V,
    request: VaultRequestMessage,
    r: Result<VaultResponseMessage, CoreError>,
    after: V,
) -> bool {
    match request {
        VaultRequestMessage::EcDiffieHellman { context, peer_public_key } => match r {
            Ok(VaultResponseMessage::EcDiffieHellman(s)) => vault.ec_diffie_hellman_result(
                context,
                peer_public_key@,
                Ok(s),
                after,
            ),
            Ok(_) => false,
            Err(e) => vault.ec_diffie_hellman_result(context, peer_public_key@, Err(e), after),
        },
        VaultRequestMessage::Sha256 { data } => match r {
            Ok(VaultResponseMessage::Sha256(h)) => vault.sha256_result(data@, Ok(h), after) && h@
                == V::sha256_spec(data@),
            Ok(_) => false,
            Err(e) => vault.sha256_result(data@, Err(e), after),
        },
        VaultRequestMessage::HkdfSha256 { salt, info, ikm, output_attributes } => match r {
            Ok(VaultResponseMessage::HkdfSha256(v)) => vault.hkdf_sha256_result(
                salt,
                info@,
                ikm,
                output_attributes@,
                Ok(v),
                after,
            ),
            Ok(_) => false,
            Err(e) => vault.hkdf_sha256_result(salt, info@, ikm, output_attributes@, Err(e), after),
        },
        VaultRequestMessage::GetSecretByKeyId { key_id } => match r {
            Ok(VaultResponseMessage::GetSecretByKeyId(s)) => vault.get_secret_by_key_id_result(
                key_id@,
                Ok(s),
                after,
            ),
            Ok(_) => false,
            Err(e) => vault.get_secret_by_key_id_result(key_id@, Err(e), after),
        },
        VaultRequestMessage::ComputeKeyIdForPublicKey { public_key } => match r {
            Ok(VaultResponseMessage::ComputeKeyIdForPublicKey(k)) => vault.compute_key_id_result(
                public_key@,
                Ok(k),
                after,
            ) && k@ == V::key_id_spec(public_key@),
            Ok(_) => false,
            Err(e) => vault.compute_key_id_result(public_key@, Err(e), after),
        },
        VaultRequestMessage::SecretGenerate { attributes } => match r {
            Ok(VaultResponseMessage::SecretGenerate(s)) => vault.secret_generate_result(
                attributes,
                Ok(s),
                after,
            ),
            Ok(_) => false,
            Err(e) => vault.secret_generate_result(attributes, Err(e), after),
        },
        VaultRequestMessage::SecretImport { secret, attributes } => match r {
            Ok(VaultResponseMessage::SecretImport(s)) => vault.secret_import_result(
                secret@,
                attributes,
                Ok(s),
                after,
            ),
            Ok(_) => false,
            Err(e) => vault.secret_import_result(secret@, attributes, Err(e), after),
        },
        VaultRequestMessage::SecretExport { context } => match r {
            Ok(VaultResponseMessage::SecretExport(k)) => vault.secret_export_result(context, Ok(k), after),
            Ok(_) => false,
            Err(e) => vault.secret_export_result(context, Err(e), after),
        },
        VaultRequestMessage::SecretAttributesGet { context } => match r {
            Ok(VaultResponseMessage::SecretAttributesGet(a)) => vault.secret_attributes_get_result(
                context,
                Ok(a),
                after,
            ),
            Ok(_) => false,
            Err(e) => vault.secret_attributes_get_result(context, Err(e), after),
        },
        VaultRequestMessage::SecretPublicKeyGet { context } => match r {
            Ok(VaultResponseMessage::SecretPublicKeyGet(k)) => vault.secret_public_key_get_result(
                context,
                Ok(k),
                after,
            ),
            Ok(_) => false,
            Err(e) => vault.secret_public_key_get_result(context, Err(e), after),
        },
        VaultRequestMessage::SecretDestroy { context } => match r {
            Ok(VaultResponseMessage::SecretDestroy) => vault.secret_destroy_result(context, Ok(()), after),
            Ok(_) => false,
            Err(e) => vault.secret_destroy_result(context, Err(e), after),
        },
        VaultRequestMessage::Sign { secret_key, data } => match r {
            Ok(VaultResponseMessage::Sign(g)) => vault.sign_result(secret_key, data@, Ok(g), after),
            Ok(_) => false,
            Err(e) => vault.sign_result(secret_key, data@, Err(e), after),
        },
        VaultRequestMessage::AeadAesGcmEncrypt { context, plaintext, nonce, aad } => match r {
            Ok(VaultResponseMessage::AeadAesGcmEncrypt(c)) => vault.aead_aes_gcm_encrypt_result(
                context,
                plaintext@,
                nonce@,
                aad@,
                Ok(c),
                after,
            ),
            Ok(_) => false,
            Err(e) => vault.aead_aes_gcm_encrypt_result(context, plaintext@, nonce@, aad@, Err(e), after),
        },
        VaultRequestMessage::AeadAesGcmDecrypt { context, cipher_text, nonce, aad } => match r {
            Ok(VaultResponseMessage::AeadAesGcmDecrypt(p)) => vault.aead_aes_gcm_decrypt_result(
                context,
                cipher_text@,
                nonce@,
                aad@,
                Ok(p),
                after,
            ),
            Ok(_) => false,
            Err(e) => vault.aead_aes_gcm_decrypt_result(context, cipher_text@, nonce@, aad@, Err(e), after),
        },
        VaultRequestMessage::Verify { signature, public_key, data } => {
            &&& r == Ok::<VaultResponseMessage, CoreError>(
                VaultResponseMessage::Verify(V::verifies(signature@, public_key@, data@)),
            )
            &&& exists|res: Result<(), CoreError>| #[trigger] vault.verify_result(
                signature@,
                public_key@,
                data@,
                res,
                after,
            )
        },
    }
}

/// A Worker that exposes a Vault API.
pub struct VaultWorker<V> where V: VaultTrait {
    inner: V,
}

impl<V> VaultWorker<V> where V: VaultTrait {
    /// The vault that the worker exposes.
    pub closed spec fn inner(&self) -> V {
        self.inner
    }

    /// Create a new VaultWorker.
    pub fn new(inner: V) -> (w: Self)
        ensures
            w.inner() == inner,
    {
        Self { inner }
    }

    /// Answer a request by the matching call of the vault. A failed call is answered by
    /// its error, but for a verification: its answer is whether the signature verified.
    pub fn handle_request(&mut self, msg: VaultRequestMessage) -> (r: Result<VaultResponseMessage, CoreError>)
        ensures
            answers(old(self).inner(), msg, r, final(self).inner()),
    {
        match msg {
            VaultRequestMessage::EcDiffieHellman { context, peer_public_key } => {
                let res = self.inner.ec_diffie_hellman(&context, peer_public_key.as_slice())?;
                Ok(VaultResponseMessage::EcDiffieHellman(res))
            },
            VaultRequestMessage::Sha256 { data } => {
                let res = self.inner.sha256(data.as_slice())?;
                Ok(VaultResponseMessage::Sha256(res))
            },
            VaultRequestMessage::HkdfSha256 { salt, info, ikm, output_attributes } => {
                let res = self.inner.hkdf_sha256(&salt, info.as_slice(), ikm.as_ref(), output_attributes)?;
                Ok(VaultResponseMessage::HkdfSha256(res))
            },
            VaultRequestMessage::GetSecretByKeyId { key_id } => {
                let res = self.inner.get_secret_by_key_id(key_id.as_str())?;
                Ok(VaultResponseMessage::GetSecretByKeyId(res))
            },
            VaultRequestMessage::ComputeKeyIdForPublicKey { public_key } => {
                let res = self.inner.compute_key_id_for_public_key(&public_key)?;
                Ok(VaultResponseMessage::ComputeKeyIdForPublicKey(res))
            },
            VaultRequestMessage::SecretGenerate { attributes } => {
                let res = self.inner.secret_generate(attributes)?;
                Ok(VaultResponseMessage::SecretGenerate(res))
            },
            VaultRequestMessage::SecretImport { secret, attributes } => {
                let res = self.inner.secret_import(secret.as_slice(), attributes)?;
                Ok(VaultResponseMessage::SecretImport(res))
            },
            VaultRequestMessage::SecretExport { context } => {
                let res = self.inner.secret_export(&context)?;
                Ok(VaultResponseMessage::SecretExport(res))
            },
            VaultRequestMessage::SecretAttributesGet { context } => {
                let res = self.inner.secret_attributes_get(&context)?;
                Ok(VaultResponseMessage::SecretAttributesGet(res))
            },
            VaultRequestMessage::SecretPublicKeyGet { context } => {
                let res = self.inner.secret_public_key_get(&context)?;
                Ok(VaultResponseMessage::SecretPublicKeyGet(res))
            },
            VaultRequestMessage::SecretDestroy { context } => {
                self.inner.secret_destroy(context)?;
                Ok(VaultResponseMessage::SecretDestroy)
            },
            VaultRequestMessage::Sign { secret_key, data } => {
                let res = self.inner.sign(&secret_key, data.as_slice())?;
                Ok(VaultResponseMessage::Sign(res))
            },
            VaultRequestMessage::AeadAesGcmEncrypt { context, plaintext, nonce, aad } => {
                let res = self.inner.aead_aes_gcm_encrypt(
                    &context,
                    plaintext.as_slice(),
                    nonce.as_slice(),
                    aad.as_slice(),
                )?;
                Ok(VaultResponseMessage::AeadAesGcmEncrypt(res))
            },
            VaultRequestMessage::AeadAesGcmDecrypt { context, cipher_text, nonce, aad } => {
                let res = self.inner.aead_aes_gcm_decrypt(
                    &context,
                    cipher_text.as_slice(),
                    nonce.as_slice(),
                    aad.as_slice(),
                )?;
                Ok(VaultResponseMessage::AeadAesGcmDecrypt(res))
            },
            VaultRequestMessage::Verify { signature, public_key, data } => {
                let res = self.inner.verify(
                    signature.as_slice(),
                    public_key.as_slice(),
                    data.as_slice(),
                ).is_ok();
                Ok(VaultResponseMessage::Verify(res))
            },
        }
    }
}


/// A worker answers each request by the vault method of the same name, called on the
/// vault as it was with the request's own fields in order: an answer in the response
/// of the same name carries that method's result on those fields, an error is that
/// method's error, and the vault is left as that call leaves it; a verification is
/// answered by whether the signature is valid. A decryption is answered by the vault's
/// decryption, never by an encryption, and the other way round.
pub proof fn lemma_answer_is_the_named_call<V: VaultTrait>(
    vault: V,
    request: VaultRequestMessage,
    r: Result<VaultResponseMessage, CoreError>,
    after: V,
)
    requires
        answers(vault, request, r, after),
    ensures
        request matches VaultRequestMessage::EcDiffieHellman { context, peer_public_key } ==> (match r {
            Ok(VaultResponseMessage::EcDiffieHellman(s)) => vault.ec_diffie_hellman_result(
                context,
                peer_public_key@,
                Ok(s),
                after,
            ),
            Ok(_) => false,
            Err(e) => vault.ec_diffie_hellman_result(context, peer_public_key@, Err(e), after),
        }),
        request matches VaultRequestMessage::Sha256 { data } ==> (match r {
            Ok(VaultResponseMessage::Sha256(h)) => vault.sha256_result(data@, Ok(h), after) && h@
                == V::sha256_spec(data@),
            Ok(_) => false,
            Err(e) => vault.sha256_result(data@, Err(e), after),
        }),
        request matches VaultRequestMessage::HkdfSha256 { salt, info, ikm, output_attributes } ==> (match r {
            Ok(VaultResponseMessage::HkdfSha256(v)) => vault.hkdf_sha256_result(
                salt,
                info@,
                ikm,
                output_attributes@,
                Ok(v),
                after,
            ),
            Ok(_) => false,
            Err(e) => vault.hkdf_sha256_result(salt, info@, ikm, output_attributes@, Err(e), after),
        }),
        request matches VaultRequestMessage::GetSecretByKeyId { key_id } ==> (match r {
            Ok(VaultResponseMessage::GetSecretByKeyId(s)) => vault.get_secret_by_key_id_result(
                key_id@,
                Ok(s),
                after,
            ),
            Ok(_) => false,
            Err(e) => vault.get_secret_by_key_id_result(key_id@, Err(e), after),
        }),
        request matches VaultRequestMessage::ComputeKeyIdForPublicKey { public_key } ==> (match r {
            Ok(VaultResponseMessage::ComputeKeyIdForPublicKey(k)) => vault.compute_key_id_result(
                public_key@,
                Ok(k),
                after,
            ) && k@ == V::key_id_spec(public_key@),
            Ok(_) => false,
            Err(e) => vault.compute_key_id_result(public_key@, Err(e), after),
        }),
        request matches VaultRequestMessage::SecretGenerate { attributes } ==> (match r {
            Ok(VaultResponseMessage::SecretGenerate(s)) => vault.secret_generate_result(
                attributes,
                Ok(s),
                after,
            ),
            Ok(_) => false,
            Err(e) => vault.secret_generate_result(attributes, Err(e), after),
        }),
        request matches VaultRequestMessage::SecretImport { secret, attributes } ==> (match r {
            Ok(VaultResponseMessage::SecretImport(s)) => vault.secret_import_result(
                secret@,
                attributes,
                Ok(s),
                after,
            ),
            Ok(_) => false,
            Err(e) => vault.secret_import_result(secret@, attributes, Err(e), after),
        }),
        request matches VaultRequestMessage::SecretExport { context } ==> (match r {
            Ok(VaultResponseMessage::SecretExport(k)) => vault.secret_export_result(context, Ok(k), after),
            Ok(_) => false,
            Err(e) => vault.secret_export_result(context, Err(e), after),
        }),
        request matches VaultRequestMessage::SecretAttributesGet { context } ==> (match r {
            Ok(VaultResponseMessage::SecretAttributesGet(a)) => vault.secret_attributes_get_result(
                context,
                Ok(a),
                after,
            ),
            Ok(_) => false,
            Err(e) => vault.secret_attributes_get_result(context, Err(e), after),
        }),
        request matches VaultRequestMessage::SecretPublicKeyGet { context } ==> (match r {
            Ok(VaultResponseMessage::SecretPublicKeyGet(k)) => vault.secret_public_key_get_result(
                context,
                Ok(k),
                after,
            ),
            Ok(_) => false,
            Err(e) => vault.secret_public_key_get_result(context, Err(e), after),
        }),
        request matches VaultRequestMessage::SecretDestroy { context } ==> (match r {
            Ok(VaultResponseMessage::SecretDestroy) => vault.secret_destroy_result(context, Ok(()), after),
            Ok(_) => false,
            Err(e) => vault.secret_destroy_result(context, Err(e), after),
        }),
        request matches VaultRequestMessage::Sign { secret_key, data } ==> (match r {
            Ok(VaultResponseMessage::Sign(g)) => vault.sign_result(secret_key, data@, Ok(g), after),
            Ok(_) => false,
            Err(e) => vault.sign_result(secret_key, data@, Err(e), after),
        }),
        request matches VaultRequestMessage::AeadAesGcmEncrypt { context, plaintext, nonce, aad } ==> (match r {
            Ok(VaultResponseMessage::AeadAesGcmEncrypt(c)) => vault.aead_aes_gcm_encrypt_result(
                context,
                plaintext@,
                nonce@,
                aad@,
                Ok(c),
                after,
            ),
            Ok(_) => false,
            Err(e) => vault.aead_aes_gcm_encrypt_result(context, plaintext@, nonce@, aad@, Err(e), after),
        }),
        request matches VaultRequestMessage::AeadAesGcmDecrypt { context, cipher_text, nonce, aad } ==> (match r {
            Ok(VaultResponseMessage::AeadAesGcmDecrypt(p)) => vault.aead_aes_gcm_decrypt_result(
                context,
                cipher_text@,
                nonce@,
                aad@,
                Ok(p),
                after,
            ),
            Ok(_) => false,
            Err(e) => vault.aead_aes_gcm_decrypt_result(context, cipher_text@, nonce@, aad@, Err(e), after),
        }),
        request matches VaultRequestMessage::Verify { signature, public_key, data } ==> ({
            &&& r == Ok::<VaultResponseMessage, CoreError>(
                VaultResponseMessage::Verify(V::verifies(signature@, public_key@, data@)),
            )
            &&& exists|res: Result<(), CoreError>| #[trigger] vault.verify_result(
                signature@,
                public_key@,
                data@,
                res,
                after,
            )
        }),
{
}

} // verus!
