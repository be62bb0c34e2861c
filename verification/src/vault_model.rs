//! What the vault's answers establish when requests follow one another: each answer
//! is given by the vault as the request before it left it. A well-formed vault keeps
//! its own keys: its signatures are valid under the public keys that it reports for
//! its secrets, and a lookup under a key's identifier finds a secret of that key.
use vstd::prelude::*;

use crate::error::CoreError;
use crate::vault::{
    CURVE25519_SECRET_LENGTH, KeyId, ProfileVault, PublicKey, Secret, SecretAttributes,
    SecretPersistence, SecretType,
};

verus! {

/// The attributes of the secret of a new key.
pub open spec fn new_key_secret_attributes() -> SecretAttributes {
    SecretAttributes {
        stype: SecretType::Curve25519,
        persistence: SecretPersistence::Persistent,
        length: CURVE25519_SECRET_LENGTH,
    }
}

/// Whether `vault` reports `public_key` as the public key of `secret`.
pub open spec fn reports<V: ProfileVault>(vault: V, secret: Secret, public_key: Seq<u8>) -> bool {
    exists|k: PublicKey, after: V|
        k@ == public_key && #[trigger] vault.secret_public_key_get_result(secret, Ok(k), after)
}

/// Whether `vault` is well formed: every signature that it makes with a secret is valid
/// under the public key that it reports for that secret; a secret that it finds under
/// the identifier of a public key has that public key; and its lookup under the
/// identifier of a public key that it reports for one of its secrets finds a secret.
pub open spec fn well_formed<V: ProfileVault>(vault: V) -> bool {
    &&& forall|secret: Secret, data: Seq<u8>, s: Vec<u8>, after: V, public_key: Seq<u8>|
        #![trigger vault.sign_result(secret, data, Ok(s), after), reports(vault, secret, public_key)]
        vault.sign_result(secret, data, Ok(s), after) && reports(vault, secret, public_key)
            ==> V::verifies(s@, public_key, data)
    &&& forall|public_key: Seq<u8>, secret: Secret, after: V|
        #[trigger] vault.get_secret_by_key_id_result(V::key_id_spec(public_key), Ok(secret), after)
            ==> reports(vault, secret, public_key)
    &&& forall|public_key: Seq<u8>, secret: Secret, r: Result<Secret, CoreError>, after: V|
        #![trigger reports(vault, secret, public_key), vault.get_secret_by_key_id_result(V::key_id_spec(public_key), r, after)]
        reports(vault, secret, public_key) && vault.get_secret_by_key_id_result(
            V::key_id_spec(public_key),
            r,
            after,
        ) ==> r is Ok
}

/// Whether `vault` answers one of the requests that a profile makes of it and is left
/// as `after`.
pub open spec fn vault_step<V: ProfileVault>(vault: V, after: V) -> bool {
    ||| exists|a: SecretAttributes, r: Result<Secret, CoreError>| #[trigger] vault.secret_generate_result(a, r, after)
    ||| exists|s: Secret, r: Result<PublicKey, CoreError>| #[trigger] vault.secret_public_key_get_result(s, r, after)
    ||| exists|d: Seq<u8>, r: Result<[u8; 32], CoreError>| #[trigger] vault.sha256_result(d, r, after)
    ||| exists|s: Secret, d: Seq<u8>, r: Result<Vec<u8>, CoreError>| #[trigger] vault.sign_result(s, d, r, after)
    ||| exists|g: Seq<u8>, k: Seq<u8>, d: Seq<u8>, r: Result<(), CoreError>|
        #[trigger] vault.verify_result(g, k, d, r, after)
    ||| exists|k: Seq<u8>, r: Result<KeyId, CoreError>| #[trigger] vault.compute_key_id_result(k, r, after)
    ||| exists|k: Seq<char>, r: Result<Secret, CoreError>| #[trigger] vault.get_secret_by_key_id_result(k, r, after)
}

/// Whether the requests of a profile keep every well-formed vault of type `V` well
/// formed, and keep the public keys that it reports for its secrets.
pub open spec fn requests_keep_well_formed<V: ProfileVault>() -> bool {
    forall|vault: V, after: V|
        well_formed(vault) && #[trigger] vault_step(vault, after) ==> {
            &&& well_formed(after)
            &&& forall|s: Secret, k: Seq<u8>| reports(vault, s, k) ==> #[trigger] reports(after, s, k)
        }
}

/// Whether `vault` is left as `after` by `n` requests in turn.
pub open spec fn reaches_in<V: ProfileVault>(vault: V, after: V, n: nat) -> bool
    decreases n,
{
    if n == 0 {
        vault == after
    } else {
        exists|mid: V| #[trigger] vault_step(vault, mid) && reaches_in(mid, after, (n - 1) as nat)
    }
}

/// Whether `vault` is left as `after` by requests in turn.
pub open spec fn reaches<V: ProfileVault>(vault: V, after: V) -> bool {
    exists|n: nat| #[trigger] reaches_in(vault, after, n)
}

/// A vault reaches itself, and what it reaches by one more request it reaches too.
pub proof fn lemma_reaches_extend<V: ProfileVault>(vault: V, mid: V, after: V)
    requires
        reaches(vault, mid),
        vault_step(mid, after),
    ensures
        reaches(vault, after),
        reaches(after, after),
{
    let n = choose|n: nat| #[trigger] reaches_in(vault, mid, n);
    lemma_reaches_in_extend(vault, mid, after, n);
    assert(reaches_in(after, after, 0));
}

proof fn lemma_reaches_in_extend<V: ProfileVault>(vault: V, mid: V, after: V, n: nat)
    requires
        reaches_in(vault, mid, n),
        vault_step(mid, after),
    ensures
        reaches_in(vault, after, n + 1),
    decreases n,
{
    if n == 0 {
        assert(reaches_in(after, after, 0));
    } else {
        let m = choose|m: V| #[trigger] vault_step(vault, m) && reaches_in(m, mid, (n - 1) as nat);
        lemma_reaches_in_extend(m, mid, after, (n - 1) as nat);
    }
}

/// Requests in turn after requests in turn are requests in turn.
pub proof fn lemma_reaches_trans<V: ProfileVault>(vault: V, mid: V, after: V)
    requires
        reaches(vault, mid),
        reaches(mid, after),
    ensures
        reaches(vault, after),
{
    let n = choose|n: nat| #[trigger] reaches_in(mid, after, n);
    lemma_reaches_trans_in(vault, mid, after, n);
}

proof fn lemma_reaches_trans_in<V: ProfileVault>(vault: V, mid: V, after: V, n: nat)
    requires
        reaches(vault, mid),
        reaches_in(mid, after, n),
    ensures
        reaches(vault, after),
    decreases n,
{
    if n == 0 {
    } else {
        let m = choose|m: V| #[trigger] vault_step(mid, m) && reaches_in(m, after, (n - 1) as nat);
        lemma_reaches_extend(vault, mid, m);
        lemma_reaches_trans_in(vault, m, after, (n - 1) as nat);
    }
}

/// A vault reaches itself.
pub proof fn lemma_reaches_self<V: ProfileVault>(vault: V)
    ensures
        reaches(vault, vault),
{
    assert(reaches_in(vault, vault, 0));
}

/// Requests in turn keep a well-formed vault well formed, and keep the public keys
/// that it reports.
pub proof fn lemma_reaches_keeps<V: ProfileVault>(vault: V, after: V)
    requires
        requests_keep_well_formed::<V>(),
        well_formed(vault),
        reaches(vault, after),
    ensures
        well_formed(after),
        forall|s: Secret, k: Seq<u8>| reports(vault, s, k) ==> #[trigger] reports(after, s, k),
{
    let n = choose|n: nat| #[trigger] reaches_in(vault, after, n);
    lemma_reaches_in_keeps(vault, after, n);
}

proof fn lemma_reaches_in_keeps<V: ProfileVault>(vault: V, after: V, n: nat)
    requires
        requests_keep_well_formed::<V>(),
        well_formed(vault),
        reaches_in(vault, after, n),
    ensures
        well_formed(after),
        forall|s: Secret, k: Seq<u8>| reports(vault, s, k) ==> #[trigger] reports(after, s, k),
    decreases n,
{
    if n > 0 {
        let m = choose|m: V| #[trigger] vault_step(vault, m) && reaches_in(m, after, (n - 1) as nat);
        lemma_reaches_in_keeps(m, after, (n - 1) as nat);
    }
}

/// Whether `vault` answers the request to generate the secret of a new key with
/// `secret`, and then the request for its public key with `public_key`, leaving the
/// vault as `after`.
pub open spec fn key_made<V: ProfileVault>(vault: V, secret: Secret, public_key: Seq<u8>, after: V) -> bool {
    exists|mid: V, k: PublicKey|
        #![trigger vault.secret_generate_result(new_key_secret_attributes(), Ok(secret), mid), mid.secret_public_key_get_result(secret, Ok(k), after)]
        vault.secret_generate_result(new_key_secret_attributes(), Ok(secret), mid) && k@ == public_key
            && mid.secret_public_key_get_result(secret, Ok(k), after)
}

/// The secret of every new key is a persistent Curve25519 secret of 32 bytes: the
/// kind of secret whose public key a vault gives and whose signatures it makes.
pub proof fn lemma_new_key_secrets_are_curve25519()
    ensures
        new_key_secret_attributes() == (SecretAttributes {
            stype: SecretType::Curve25519,
            persistence: SecretPersistence::Persistent,
            length: 32,
        }),
{
}

/// A new key's secret is requested from the vault as a persistent Curve25519 secret of
/// 32 bytes.
pub proof fn lemma_key_made_requests_curve25519<V: ProfileVault>(
    vault: V,
    secret: Secret,
    public_key: Seq<u8>,
    after: V,
)
    requires
        key_made(vault, secret, public_key, after),
    ensures
        exists|mid: V|
            #[trigger] vault.secret_generate_result(
                SecretAttributes {
                    stype: SecretType::Curve25519,
                    persistence: SecretPersistence::Persistent,
                    length: 32,
                },
                Ok(secret),
                mid,
            ),
{
    let (mid, k) = choose|mid: V, k: PublicKey|
        #![trigger vault.secret_generate_result(new_key_secret_attributes(), Ok(secret), mid), mid.secret_public_key_get_result(secret, Ok(k), after)]
        vault.secret_generate_result(new_key_secret_attributes(), Ok(secret), mid) && k@ == public_key
            && mid.secret_public_key_get_result(secret, Ok(k), after);
    lemma_new_key_secrets_are_curve25519();
    assert(vault.secret_generate_result(new_key_secret_attributes(), Ok(secret), mid));
}

/// Whether `vault` answers the request to hash `data` with `digest`, leaving the vault
/// as `after`.
pub open spec fn digest_made<V: ProfileVault>(vault: V, data: Seq<u8>, digest: Seq<u8>, after: V) -> bool {
    exists|h: [u8; 32]| h@ == digest && #[trigger] vault.sha256_result(data, Ok(h), after)
}

/// Whether `vault` answers the request to sign `data` with `secret` with `signature`,
/// leaving the vault as `after`.
pub open spec fn signed<V: ProfileVault>(vault: V, secret: Secret, data: Seq<u8>, signature: Seq<u8>, after: V) -> bool {
    exists|s: Vec<u8>| s@ == signature && #[trigger] vault.sign_result(secret, data, Ok(s), after)
}

/// Whether `vault` answers the lookup of the secret of `public_key` with `r`, leaving
/// the vault as `after`: either it refuses the request for the key's identifier with
/// the error of `r`, or it answers that request, and then the vault, as the request
/// left it, answers the lookup made under the key's identifier with `r`.
pub open spec fn secret_lookup<V: ProfileVault>(
    vault: V,
    public_key: Seq<u8>,
    r: Result<Secret, CoreError>,
    after: V,
) -> bool {
    ||| (r matches Err(e) && vault.compute_key_id_result(public_key, Err(e), after))
    ||| exists|k: KeyId, mid: V|
        #[trigger] vault.compute_key_id_result(public_key, Ok(k), mid) && mid.get_secret_by_key_id_result(
            V::key_id_spec(public_key),
            r,
            after,
        )
}

/// A well-formed vault reports, for the secret of a new key, the public key that it
/// gave for it, and stays well formed.
pub proof fn lemma_key_made<V: ProfileVault>(vault: V, secret: Secret, public_key: Seq<u8>, after: V)
    requires
        requests_keep_well_formed::<V>(),
        well_formed(vault),
        key_made(vault, secret, public_key, after),
    ensures
        reaches(vault, after),
        well_formed(after),
        reports(after, secret, public_key),
        forall|s: Secret, k: Seq<u8>| reports(vault, s, k) ==> #[trigger] reports(after, s, k),
{
    let (mid, k) = choose|mid: V, k: PublicKey|
        #![trigger vault.secret_generate_result(new_key_secret_attributes(), Ok(secret), mid), mid.secret_public_key_get_result(secret, Ok(k), after)]
        vault.secret_generate_result(new_key_secret_attributes(), Ok(secret), mid) && k@ == public_key
            && mid.secret_public_key_get_result(secret, Ok(k), after);
    assert(vault_step(vault, mid));
    assert(vault_step(mid, after));
    assert(reports(mid, secret, public_key));
    lemma_reaches_self(vault);
    lemma_reaches_extend(vault, vault, mid);
    lemma_reaches_extend(vault, mid, after);
    lemma_reaches_keeps(vault, after);
}

/// A digest is one request in turn.
pub proof fn lemma_digest_made<V: ProfileVault>(vault: V, data: Seq<u8>, digest: Seq<u8>, after: V)
    requires
        digest_made(vault, data, digest, after),
    ensures
        vault_step(vault, after),
{
}

/// A signature by a well-formed vault with a secret is valid under the public key that
/// it reports for that secret.
pub proof fn lemma_signed<V: ProfileVault>(
    vault: V,
    secret: Secret,
    public_key: Seq<u8>,
    data: Seq<u8>,
    signature: Seq<u8>,
    after: V,
)
    requires
        well_formed(vault),
        reports(vault, secret, public_key),
        signed(vault, secret, data, signature, after),
    ensures
        V::verifies(signature, public_key, data),
        vault_step(vault, after),
{
    let s = choose|s: Vec<u8>| s@ == signature && #[trigger] vault.sign_result(secret, data, Ok(s), after);
    assert(vault.sign_result(secret, data, Ok(s), after) && reports(vault, secret, public_key));
}

/// A lookup leaves the vault as requests in turn leave it; one that a well-formed
/// vault answers with a secret answers with a secret of that key.
pub proof fn lemma_secret_lookup_kept<V: ProfileVault>(
    vault: V,
    public_key: Seq<u8>,
    r: Result<Secret, CoreError>,
    after: V,
)
    requires
        secret_lookup(vault, public_key, r, after),
    ensures
        reaches(vault, after),
        requests_keep_well_formed::<V>() && well_formed(vault) ==> {
            &&& well_formed(after)
            &&& forall|s: Secret, k: Seq<u8>| reports(vault, s, k) ==> #[trigger] reports(after, s, k)
            &&& r matches Ok(s) ==> reports(after, s, public_key)
        },
{
    lemma_reaches_self(vault);
    if r matches Err(e) && vault.compute_key_id_result(public_key, Err(e), after) {
        assert(vault_step(vault, after));
        lemma_reaches_extend(vault, vault, after);
        if requests_keep_well_formed::<V>() && well_formed(vault) {
            lemma_reaches_keeps(vault, after);
        }
    } else {
        let (k, mid) = choose|k: KeyId, mid: V|
            #[trigger] vault.compute_key_id_result(public_key, Ok(k), mid) && mid.get_secret_by_key_id_result(
                V::key_id_spec(public_key),
                r,
                after,
            );
        assert(vault_step(vault, mid));
        assert(vault_step(mid, after));
        lemma_reaches_extend(vault, vault, mid);
        lemma_reaches_extend(vault, mid, after);
        if requests_keep_well_formed::<V>() && well_formed(vault) {
            lemma_reaches_keeps(vault, mid);
            lemma_reaches_keeps(vault, after);
            if r is Ok {
                let s = r->Ok_0;
                assert(mid.get_secret_by_key_id_result(V::key_id_spec(public_key), Ok(s), after));
                assert(reports(mid, s, public_key));
            }
        }
    }
}

/// A well-formed vault finds the secret of a public key that it reports for one of its
/// secrets: the lookup fails only where the request for the key's identifier is
/// refused.
pub proof fn lemma_secret_lookup_finds<V: ProfileVault>(
    vault: V,
    public_key: Seq<u8>,
    owned: Secret,
    r: Result<Secret, CoreError>,
    after: V,
)
    requires
        requests_keep_well_formed::<V>(),
        well_formed(vault),
        reports(vault, owned, public_key),
        secret_lookup(vault, public_key, r, after),
    ensures
        r matches Err(e) ==> vault.compute_key_id_result(public_key, Err(e), after),
        r matches Ok(s) ==> reports(after, s, public_key),
{
    lemma_secret_lookup_kept(vault, public_key, r, after);
    if r matches Err(e) && vault.compute_key_id_result(public_key, Err(e), after) {
    } else {
        let (k, mid) = choose|k: KeyId, mid: V|
            #[trigger] vault.compute_key_id_result(public_key, Ok(k), mid) && mid.get_secret_by_key_id_result(
                V::key_id_spec(public_key),
                r,
                after,
            );
        assert(vault_step(vault, mid));
        assert(reports(mid, owned, public_key));
        assert(reports(mid, owned, public_key) && mid.get_secret_by_key_id_result(
            V::key_id_spec(public_key),
            r,
            after,
        ));
    }
}

} // verus!
