//! Profile: keeps, verifies and modifies a user's data, mainly public keys. Public
//! keys and their metadata are organised into a chain of change events; the matching
//! secret keys are kept in a vault. The chain of events and the secret keys fully
//! determine a profile.
use vstd::prelude::*;
use vstd::string::StringSliceAdditionalSpecFns;

use crate::bare::bare_data;
use crate::authentication::{generate_proof, proof_signature, verification_answered, verify_proof};
use crate::change::{
    Changes, CreateKeyChange, EventView, KeyAttributes, ProfileChange, ProfileChangeEvent,
    ProfileChangeType, ProfileEventAttributes, RotateKeyChange, Signature, SignatureType,
    SignatureView, copy_events, events_view,
};
use crate::contact::{
    Contact, ContactView, ContactsDb, contact_structure_ok, contact_update_outcome,
    contact_verified, may_refuse_verification,
};
use crate::encoding::{encode_changes, encode_changes_binary};
use crate::error::{CoreError, OckamError};
use crate::history::{
    PROFILE_UPDATE_LABEL, ProfileChangeHistory, chain_verified, consistency, current_public_key,
    may_refuse_hash,
    event_public_key, event_verified, first_root_public_key, lemma_plan_created_key_event, lemma_plan_first_event,
    lemma_plan_rotated_key_event, lemma_single_event_consistency, profile_update_key_attributes,
    profile_update_label, signature_plan, signatures_well_formed,
};
use crate::identifiers::{EventIdentifier, ProfileIdentifier};
use crate::vault::{
    CURVE25519_SECRET_LENGTH, KeyId, ProfileVault, PublicKey, Secret, SecretAttributes,
    SecretPersistence, SecretType,
};
use crate::vault_model::{
    digest_made, key_made, lemma_key_made, lemma_reaches_extend, lemma_reaches_keeps,
    lemma_reaches_self, lemma_reaches_trans, lemma_secret_lookup_finds,
    lemma_secret_lookup_kept, lemma_signed, new_key_secret_attributes, reaches, reports,
    requests_keep_well_formed, secret_lookup, signed, vault_step, well_formed,
};

verus! {

/// What a profile holds, but for its vault.
pub ghost struct ProfileView {
    pub identifier: Seq<char>,
    pub events: Seq<EventView>,
    pub contacts: Map<Seq<char>, ContactView>,
}

impl ProfileView {
    /// The profile as another profile knows it.
    pub open spec fn as_contact(self) -> ContactView {
        ContactView { identifier: self.identifier, events: self.events }
    }
}

/// A profile, with the vault that keeps its secret keys.
pub struct Profile<PV> {
    identifier: ProfileIdentifier,
    change_history: ProfileChangeHistory,
    contacts: ContactsDb,
    vault: PV,
}

impl<PV> View for Profile<PV> {
    type V = ProfileView;

    closed spec fn view(&self) -> ProfileView {
        ProfileView {
            identifier: self.identifier@,
            events: self.change_history@,
            contacts: self.contacts@,
        }
    }
}

impl<PV> Profile<PV> {
    /// The vault that keeps the profile's secret keys.
    pub closed spec fn vault(&self) -> PV {
        self.vault
    }
}

impl<PV> Profile<PV> {
    /// Sha256 of the bytes of this value is used as previous event id for the first
    /// event of a profile.
    pub const NO_EVENT: &'static str = "OCKAM_NO_EVENT";
    /// Label for the profile update key.
    pub const PROFILE_UPDATE: &'static str = PROFILE_UPDATE_LABEL;
    /// Label for the key used to issue credentials.
    pub const CREDENTIALS_ISSUE: &'static str = "OCKAM_CIK";
    /// Current version of change structure.
    pub const CURRENT_CHANGE_VERSION: u8 = 1;
}

/// The attributes of a change, where none given means none.
pub open spec fn attributes_or_empty(a: Option<ProfileEventAttributes>) -> Seq<(Seq<char>, Seq<char>)> {
    match a {
        Some(x) => x@,
        None => Seq::empty(),
    }
}

/// What an event that creates a key holds: it names the event before it, holds one
/// change of the current version that creates the key with the given label, and is
/// signed by the new key and, when `root_signed`, then by the root key.
pub open spec fn created_key_event(
    e: EventView,
    prev: Seq<u8>,
    label: Seq<char>,
    attributes: Seq<(Seq<char>, Seq<char>)>,
    root_signed: bool,
) -> bool {
    &&& e.changes.prev_event_id == prev
    &&& e.changes.data.len() == 1
    &&& e.changes.data[0].version == 1
    &&& e.changes.data[0].attributes == attributes
    &&& e.changes.data[0].change_type is CreateKey
    &&& e.changes.data[0].change_type.key_change().label == label
    &&& e.signatures.len() == if root_signed {
        2int
    } else {
        1int
    }
    &&& e.signatures[0].stype == SignatureType::SelfSign
    &&& root_signed ==> e.signatures[1].stype == SignatureType::RootSign
}

/// What an event that rotates a key holds: it names the event before it, holds one
/// change of the current version that rotates the key with the given label, and is
/// signed by the new key, then by the key it replaces, then by the root key.
pub open spec fn rotated_key_event(
    e: EventView,
    prev: Seq<u8>,
    label: Seq<char>,
    attributes: Seq<(Seq<char>, Seq<char>)>,
) -> bool {
    &&& e.changes.prev_event_id == prev
    &&& e.changes.data.len() == 1
    &&& e.changes.data[0].version == 1
    &&& e.changes.data[0].attributes == attributes
    &&& e.changes.data[0].change_type is RotateKey
    &&& e.changes.data[0].change_type.key_change().label == label
    &&& e.signatures.len() == 3
    &&& e.signatures[0].stype == SignatureType::SelfSign
    &&& e.signatures[1].stype == SignatureType::PrevSign
    &&& e.signatures[2].stype == SignatureType::RootSign
}

/// Whether `vault` signs `data` with each of `secrets` in turn, the signatures being
/// those of `signatures`, and is left as `after`.
pub open spec fn signed_in_turn<PV: ProfileVault>(
    vault: PV,
    secrets: Seq<Secret>,
    data: Seq<u8>,
    signatures: Seq<Seq<u8>>,
    after: PV,
) -> bool {
    &&& signatures.len() == secrets.len()
    &&& secrets.len() <= 3
    &&& secrets.len() == 0 ==> after == vault
    &&& secrets.len() == 1 ==> signed(vault, secrets[0], data, signatures[0], after)
    &&& secrets.len() == 2 ==> exists|m1: PV|
        #[trigger] signed(vault, secrets[0], data, signatures[0], m1) && signed(m1, secrets[1], data, signatures[1], after)
    &&& secrets.len() == 3 ==> exists|m1: PV, m2: PV|
        #![trigger signed(vault, secrets[0], data, signatures[0], m1), signed(m1, secrets[1], data, signatures[1], m2)]
        signed(vault, secrets[0], data, signatures[0], m1) && signed(m1, secrets[1], data, signatures[1], m2)
            && signed(m2, secrets[2], data, signatures[2], after)
}

/// Whether `vault`, signing `data` with each of `secrets` in turn, refuses one of the
/// signatures with the error `e` after giving the ones before it, and is left as
/// `after`.
pub open spec fn signing_refused<PV: ProfileVault>(vault: PV, secrets: Seq<Secret>, data: Seq<u8>, e: CoreError, after: PV) -> bool {
    ||| secrets.len() >= 1 && vault.sign_result(secrets[0], data, Err(e), after)
    ||| secrets.len() >= 2 && exists|s0: Seq<u8>, m1: PV|
        #[trigger] signed(vault, secrets[0], data, s0, m1) && m1.sign_result(secrets[1], data, Err(e), after)
    ||| secrets.len() >= 3 && exists|s0: Seq<u8>, m1: PV, s1: Seq<u8>, m2: PV|
        #![trigger signed(vault, secrets[0], data, s0, m1), signed(m1, secrets[1], data, s1, m2)]
        signed(vault, secrets[0], data, s0, m1) && signed(m1, secrets[1], data, s1, m2) && m2.sign_result(
            secrets[2],
            data,
            Err(e),
            after,
        )
}

/// The data of the signatures of an event.
pub open spec fn signature_data(e: EventView) -> Seq<Seq<u8>> {
    e.signatures.map_values(|s: SignatureView| s.data)
}

/// Whether `vault` made the key event `e` with the fresh secret `secret`, the event
/// being signed after the new key by `others`, and is left as `after`: it generated
/// `secret` for a new key and gave the event's public key for it, it hashed the
/// encoded changes into the event's identifier, and it signed the identifier with
/// `secret` and then with each of `others` in turn.
pub open spec fn key_event_made<PV: ProfileVault>(
    vault: PV,
    e: EventView,
    secret: Secret,
    others: Seq<Secret>,
    after: PV,
) -> bool {
    &&& e.identifier == PV::sha256_spec(encode_changes(e.changes))
    &&& exists|made: PV, hashed: PV|
        #![trigger key_made(vault, secret, e.changes.data[0].change_type.key_change().public_key, made), digest_made(made, encode_changes(e.changes), e.identifier, hashed)]
        key_made(vault, secret, e.changes.data[0].change_type.key_change().public_key, made) && digest_made(
            made,
            encode_changes(e.changes),
            e.identifier,
            hashed,
        ) && signed_in_turn(hashed, seq![secret] + others, e.identifier, signature_data(e), after)
}

/// Whether `vault` made the key event `e`, signed after the new key by `others`, with
/// a fresh secret, and is left as `after`.
pub open spec fn fresh_key_event<PV: ProfileVault>(vault: PV, e: EventView, others: Seq<Secret>, after: PV) -> bool {
    exists|sk: Secret| #[trigger] key_event_made(vault, e, sk, others, after)
}

/// Whether `vault` looked up the secret of the key `replaced` and then made the
/// rotation event `e` with a fresh secret, signed after the new key by that secret
/// and by `root_key`, and is left as `after`.
pub open spec fn rotation_event_made<PV: ProfileVault>(
    vault: PV,
    replaced: Seq<u8>,
    root_key: Secret,
    e: EventView,
    after: PV,
) -> bool {
    exists|prev: Secret, looked_up: PV|
        #[trigger] secret_lookup(vault, replaced, Ok(prev), looked_up) && fresh_key_event(
            looked_up,
            e,
            two_signers(prev, root_key),
            after,
        )
}

/// Whether `vault`, making a key event signed after the new key by `others`, refuses
/// one of the requests with the error `e` after answering the ones before it, and is
/// left as `after`.
pub open spec fn key_event_refused<PV: ProfileVault>(vault: PV, others: Seq<Secret>, e: CoreError, after: PV) -> bool {
    ||| vault.secret_generate_result(new_key_secret_attributes(), Err(e), after)
    ||| exists|secret: Secret, mid: PV|
        #[trigger] vault.secret_generate_result(new_key_secret_attributes(), Ok(secret), mid)
            && mid.secret_public_key_get_result(secret, Err(e), after)
    ||| exists|secret: Secret, pk: Seq<u8>, made: PV, data: Seq<u8>|
        #![trigger key_made(vault, secret, pk, made), made.sha256_result(data, Err(e), after)]
        key_made(vault, secret, pk, made) && made.sha256_result(data, Err(e), after)
    ||| exists|secret: Secret, pk: Seq<u8>, made: PV, data: Seq<u8>, id: Seq<u8>, hashed: PV|
        #![trigger key_made(vault, secret, pk, made), digest_made(made, data, id, hashed)]
        key_made(vault, secret, pk, made) && digest_made(made, data, id, hashed) && signing_refused(
            hashed,
            seq![secret] + others,
            id,
            e,
            after,
        )
}

/// Whether `vault`, rotating a key whose current public key is `replaced`, refuses one
/// of the requests with the error `e` after answering the ones before it, and is left
/// as `after`: the lookup of the replaced key's secret, or one of the requests made in
/// making the event, signed after the new key by that secret and by `root_key`.
pub open spec fn rotation_event_refused<PV: ProfileVault>(
    vault: PV,
    replaced: Seq<u8>,
    root_key: Secret,
    e: CoreError,
    after: PV,
) -> bool {
    ||| secret_lookup(vault, replaced, Err(e), after)
    ||| exists|prev: Secret, looked_up: PV|
        #[trigger] secret_lookup(vault, replaced, Ok(prev), looked_up) && key_event_refused(
            looked_up,
            two_signers(prev, root_key),
            e,
            after,
        )
}

/// Whether `vault`, creating a key while the current root public key is `root`,
/// refuses one of the requests with the error `e` after answering the ones before it,
/// and is left as `after`: the lookup of the root secret, or one of the requests made
/// in making the event, signed after the new key by the root secret.
pub open spec fn key_creation_refused<PV: ProfileVault>(vault: PV, root: Seq<u8>, e: CoreError, after: PV) -> bool {
    ||| secret_lookup(vault, root, Err(e), after)
    ||| exists|rk: Secret, looked_up: PV|
        #[trigger] secret_lookup(vault, root, Ok(rk), looked_up) && key_event_refused(looked_up, one_signer(rk), e, after)
}

/// Whether `vault`, rotating a key whose current public key is `replaced` while the
/// current root public key is `root`, refuses one of the requests with the error `e`
/// after answering the ones before it, and is left as `after`: the lookup of the root
/// secret, or one of the requests of making the rotation event.
pub open spec fn key_rotation_refused<PV: ProfileVault>(
    vault: PV,
    root: Seq<u8>,
    replaced: Seq<u8>,
    e: CoreError,
    after: PV,
) -> bool {
    ||| secret_lookup(vault, root, Err(e), after)
    ||| exists|rk: Secret, looked_up: PV|
        #[trigger] secret_lookup(vault, root, Ok(rk), looked_up) && rotation_event_refused(
            looked_up,
            replaced,
            rk,
            e,
            after,
        )
}

/// Whether `after` is `before` with the event `e` appended, an event that creates the
/// key with the given label and is signed by the new key and by the root key: the
/// vault, starting as `vault`, looked up the secret of the current root public key,
/// then made the event with a fresh secret, signed it with the root secret, and was
/// left as `vault_after`; the event may follow the chain, and the new key is the
/// current key of its label.
pub open spec fn key_creation_event<PV: ProfileVault>(
    vault: PV,
    before: ProfileView,
    after: ProfileView,
    vault_after: PV,
    e: EventView,
    label: Seq<char>,
    attributes: Seq<(Seq<char>, Seq<char>)>,
) -> bool {
    let root = current_public_key(before.events, profile_update_label())->0;
    let new_key = e.changes.data[0].change_type.key_change().public_key;
    &&& after == ProfileView { events: before.events.push(e), ..before }
    &&& created_key_event(e, before.events.last().identifier, label, attributes, true)
    &&& consistency(before.events, seq![e]) is Ok
    &&& signature_plan(before.events, e) == Ok::<Seq<Seq<u8>>, OckamError>(seq![new_key, root])
    &&& current_public_key(after.events, label) == Some(new_key)
    &&& exists|rk: Secret, looked_up: PV|
        #[trigger] secret_lookup(vault, root, Ok(rk), looked_up) && fresh_key_event(looked_up, e, one_signer(rk), vault_after)
}

/// Whether creating the key with the given label turned the profile `before`, with its
/// vault as `vault`, into `after`, with its vault as `vault_after`.
pub open spec fn key_created<PV: ProfileVault>(
    vault: PV,
    before: ProfileView,
    after: ProfileView,
    vault_after: PV,
    label: Seq<char>,
    attributes: Seq<(Seq<char>, Seq<char>)>,
) -> bool {
    exists|e: EventView| #[trigger] key_creation_event(vault, before, after, vault_after, e, label, attributes)
}

/// Whether `after` is `before` with the event `e` appended, an event that rotates the
/// key with the given label and is signed by the new key, by the key it replaces and
/// by the root key: the vault, starting as `vault`, looked up the secret of the
/// current root public key, then that of the replaced key, then made the event with a
/// fresh secret, signed it with the replaced secret and the root secret, and was left
/// as `vault_after`; the event may follow the chain, and the new key is the current
/// key of its label.
pub open spec fn key_rotation_event<PV: ProfileVault>(
    vault: PV,
    before: ProfileView,
    after: ProfileView,
    vault_after: PV,
    e: EventView,
    label: Seq<char>,
    attributes: Seq<(Seq<char>, Seq<char>)>,
) -> bool {
    let root = current_public_key(before.events, profile_update_label())->0;
    let replaced = current_public_key(before.events, label)->0;
    let new_key = e.changes.data[0].change_type.key_change().public_key;
    &&& after == ProfileView { events: before.events.push(e), ..before }
    &&& rotated_key_event(e, before.events.last().identifier, label, attributes)
    &&& consistency(before.events, seq![e]) is Ok
    &&& signature_plan(before.events, e) == Ok::<Seq<Seq<u8>>, OckamError>(seq![new_key, replaced, root])
    &&& current_public_key(after.events, label) == Some(new_key)
    &&& exists|rk: Secret, looked_up: PV|
        #[trigger] secret_lookup(vault, root, Ok(rk), looked_up) && rotation_event_made(
            looked_up,
            replaced,
            rk,
            e,
            vault_after,
        )
}

/// Whether rotating the key with the given label turned the profile `before`, with its
/// vault as `vault`, into `after`, with its vault as `vault_after`.
pub open spec fn key_rotated<PV: ProfileVault>(
    vault: PV,
    before: ProfileView,
    after: ProfileView,
    vault_after: PV,
    label: Seq<char>,
    attributes: Seq<(Seq<char>, Seq<char>)>,
) -> bool {
    exists|e: EventView| #[trigger] key_rotation_event(vault, before, after, vault_after, e, label, attributes)
}

/// Whether `vault` answers the request for a proof of possession of the root key
/// `root` for the channel state `state` with `r`, leaving the vault as `after`: it
/// looks up the secret of `root`, and the proof holds its signature of the state with
/// that secret, framed as BARE data; or the error is the one that the lookup or the
/// signing gave.
pub open spec fn proof_made<PV: ProfileVault>(
    vault: PV,
    root: Seq<u8>,
    state: Seq<u8>,
    r: Result<Vec<u8>, CoreError>,
    after: PV,
) -> bool {
    ||| (r matches Err(e) && secret_lookup(vault, root, Err(e), after))
    ||| exists|rk: Secret, mid: PV|
        #[trigger] secret_lookup(vault, root, Ok(rk), mid) && match r {
            Ok(p) => exists|sig: Vec<u8>|
                #[trigger] mid.sign_result(rk, state, Ok(sig), after) && p@ == bare_data(sig@),
            Err(e) => mid.sign_result(rk, state, Err(e), after),
        }
}

/// Signatures made one after the other are signatures made in turn.
proof fn lemma_signed_in_turn<PV: ProfileVault>(
    vault: PV,
    secrets: Seq<Secret>,
    data: Seq<u8>,
    signatures: Seq<Seq<u8>>,
    mids: Seq<PV>,
    after: PV,
)
    requires
        secrets.len() <= 3,
        signatures.len() == secrets.len(),
        mids.len() == secrets.len() + 1,
        mids[0] == vault,
        mids[secrets.len() as int] == after,
        forall|j: int|
            #![trigger signatures[j]]
            0 <= j < secrets.len() ==> signed(mids[j], secrets[j], data, signatures[j], mids[j + 1]),
    ensures
        signed_in_turn(vault, secrets, data, signatures, after),
{
    if secrets.len() >= 1 {
        assert(signed(mids[0], secrets[0], data, signatures[0], mids[1]));
    }
    if secrets.len() >= 2 {
        assert(signed(mids[1], secrets[1], data, signatures[1], mids[2]));
    }
    if secrets.len() >= 3 {
        assert(signed(mids[2], secrets[2], data, signatures[2], mids[3]));
    }
}

/// A signature refused after the ones before it were given is a refusal in making a
/// key event.
proof fn lemma_refusal_after_signatures<PV: ProfileVault>(
    vault: PV,
    made: PV,
    hashed: PV,
    secret: Secret,
    public_key: Seq<u8>,
    data: Seq<u8>,
    id: Seq<u8>,
    others: Seq<Secret>,
    signatures: Seq<Seq<u8>>,
    mids: Seq<PV>,
    i: int,
    e: CoreError,
    after: PV,
)
    requires
        key_made(vault, secret, public_key, made),
        digest_made(made, data, id, hashed),
        others.len() <= 2,
        0 <= i <= others.len(),
        signatures.len() == i,
        mids.len() == i + 1,
        mids[0] == hashed,
        forall|j: int|
            #![trigger signatures[j]]
            0 <= j < i ==> signed(mids[j], (seq![secret] + others)[j], id, signatures[j], mids[j + 1]),
        mids[i].sign_result((seq![secret] + others)[i], id, Err(e), after),
    ensures
        key_event_refused(vault, others, e, after),
{
    let signers = seq![secret] + others;
    if i >= 1 {
        assert(signed(mids[0], signers[0], id, signatures[0], mids[1]));
    }
    if i >= 2 {
        assert(signed(mids[1], signers[1], id, signatures[1], mids[2]));
    }
    assert(signing_refused(hashed, signers, id, e, after));
}

/// One secret that signs a key's event after the new key.
pub open spec fn one_signer(first: Secret) -> Seq<Secret> {
    seq![first]
}

/// Two secrets that sign a key's event, in turn, after the new key.
pub open spec fn two_signers(first: Secret, second: Secret) -> Seq<Secret> {
    seq![first, second]
}

/// The secrets that sign a new key's event after the new key: the root secret, when
/// one is given.
pub open spec fn root_signers(root_key: Option<&Secret>) -> Seq<Secret> {
    match root_key {
        Some(rk) => one_signer(*rk),
        None => Seq::empty(),
    }
}

impl<PV: ProfileVault> Profile<PV> {
    pub fn new(
        identifier: ProfileIdentifier,
        change_events: Vec<ProfileChangeEvent>,
        contacts: ContactsDb,
        vault: PV,
    ) -> (p: Self)
        ensures
            p@ == (ProfileView {
                identifier: identifier@,
                events: events_view(change_events@),
                contacts: contacts@,
            }),
            p.vault() == vault,
    {
        Profile {
            identifier,
            change_history: ProfileChangeHistory::new(change_events),
            contacts,
            vault,
        }
    }

    /// The attributes of the secret of a new key.
    fn key_secret_attributes() -> (a: SecretAttributes)
        ensures
            a == new_key_secret_attributes(),
            a == (SecretAttributes {
                stype: SecretType::Curve25519,
                persistence: SecretPersistence::Persistent,
                length: 32,
            }),
    {
        SecretAttributes::new(
            SecretType::Curve25519,
            SecretPersistence::Persistent,
            CURVE25519_SECRET_LENGTH,
        )
    }

    /// Make the event for a fresh key, with the given changes but for the key, signed
    /// by the new key and then by each of `others` in turn: generate the secret, get its
    /// public key, hash the encoded changes into the event's identifier, and sign it.
    fn make_key_event(
        prev_id: EventIdentifier,
        key_attributes: KeyAttributes,
        attributes: ProfileEventAttributes,
        rotate: bool,
        others: &[Secret],
        vault: &mut PV,
    ) -> (r: Result<ProfileChangeEvent, CoreError>)
        requires
            others@.len() <= 2,
        ensures
            r matches Ok(e) ==> {
                &&& e@.changes.prev_event_id == prev_id@
                &&& e@.changes.data.len() == 1
                &&& e@.changes.data[0].version == 1
                &&& e@.changes.data[0].attributes == attributes@
                &&& (if rotate {
                    e@.changes.data[0].change_type is RotateKey
                } else {
                    e@.changes.data[0].change_type is CreateKey
                })
                &&& e@.changes.data[0].change_type.key_change().label == key_attributes@
                &&& e@.signatures.len() == others@.len() + 1
                &&& e@.signatures[0].stype == SignatureType::SelfSign
                &&& others@.len() >= 1 ==> e@.signatures[1].stype == (if rotate {
                    SignatureType::PrevSign
                } else {
                    SignatureType::RootSign
                })
                &&& others@.len() >= 2 ==> e@.signatures[2].stype == SignatureType::RootSign
                &&& fresh_key_event(*old(vault), e@, others@, *final(vault))
            },
            r matches Err(e) ==> key_event_refused(*old(vault), others@, e, *final(vault)),
            reaches(*old(vault), *final(vault)),
    {
        let ghost v0 = *vault;
        proof { lemma_reaches_self(v0); }
        let generated = vault.secret_generate(Self::key_secret_attributes());
        let ghost v1 = *vault;
        proof {
            assert(vault_step(v0, v1));
            lemma_reaches_extend(v0, v0, v1);
        }
        let secret_key = match generated {
            Ok(s) => s,
            Err(e) => return Err(e),
        };
        let public = vault.secret_public_key_get(&secret_key);
        let ghost v2 = *vault;
        proof {
            assert(vault_step(v1, v2));
            lemma_reaches_extend(v0, v1, v2);
        }
        let public_key = match public {
            Ok(k) => k,
            Err(e) => {
                assert(v0.secret_generate_result(new_key_secret_attributes(), Ok(secret_key), v1));
                return Err(e);
            },
        };
        let ghost pk = public_key@;
        assert(v1.secret_public_key_get_result(secret_key, Ok(public_key), v2));
        assert(key_made(v0, secret_key, pk, v2));
        let change_type = if rotate {
            ProfileChangeType::RotateKey(RotateKeyChange::new(key_attributes, public_key))
        } else {
            ProfileChangeType::CreateKey(CreateKeyChange::new(key_attributes, public_key))
        };
        let profile_change = ProfileChange::new(Self::CURRENT_CHANGE_VERSION, attributes, change_type);
        let mut data: Vec<ProfileChange> = Vec::new();
        data.push(profile_change);
        let changes = Changes::new(prev_id, data);
        assert(changes@.data[0] == profile_change@);
        let changes_binary = match encode_changes_binary(&changes) {
            Ok(b) => b,
            Err(e) => return Err(CoreError::Ockam(e)),
        };
        let digest = vault.sha256(changes_binary.as_slice());
        let ghost v3 = *vault;
        proof {
            assert(vault_step(v2, v3));
            lemma_reaches_extend(v0, v2, v3);
        }
        let event_id = match digest {
            Ok(h) => h,
            Err(e) => {
                assert(key_made(v0, secret_key, pk, v2) && v2.sha256_result(changes_binary@, Err(e), v3));
                return Err(e);
            },
        };
        let event_id = EventIdentifier::from_hash(event_id);
        let ghost id = event_id@;
        assert(digest_made(v2, encode_changes(changes@), id, v3));
        let ghost signers = seq![secret_key] + others@;
        let mut signatures: Vec<Signature> = Vec::new();
        let ghost mut sigs: Seq<Seq<u8>> = Seq::empty();
        let ghost mut mids: Seq<PV> = seq![v3];
        let mut i: usize = 0;
        while i <= others.len()
            invariant
                0 <= i <= others@.len() + 1,
                others@.len() <= 2,
                signers == seq![secret_key] + others@,
                signatures@.len() == i,
                sigs.len() == i,
                mids.len() == i + 1,
                mids[0] == v3,
                mids[i as int] == *vault,
                forall|j: int| 0 <= j < i ==> #[trigger] signatures@[j].data@ == sigs[j],
                forall|j: int| 0 <= j < i ==> signatures@[j].stype == (if j == 0 {
                    SignatureType::SelfSign
                } else if rotate && j == 1 {
                    SignatureType::PrevSign
                } else {
                    SignatureType::RootSign
                }),
                forall|j: int|
                    #![trigger sigs[j]]
                    0 <= j < i ==> signed(mids[j], signers[j], id, sigs[j], mids[j + 1]),
                reaches(v0, *vault),
                v0 == *old(vault),
                id == event_id@,
                key_made(v0, secret_key, pk, v2),
                digest_made(v2, encode_changes(changes@), id, v3),
            decreases others@.len() + 1 - i,
        {
            let signer = if i == 0 {
                &secret_key
            } else {
                &others[i - 1]
            };
            assert(*signer == signers[i as int]);
            let ghost before = *vault;
            let signature = vault.sign(signer, event_id.as_slice());
            proof {
                assert(vault_step(before, *vault));
                lemma_reaches_extend(v0, before, *vault);
            }
            let signature = match signature {
                Ok(g) => g,
                Err(e) => {
                    proof {
                        lemma_refusal_after_signatures(
                            v0,
                            v2,
                            v3,
                            secret_key,
                            pk,
                            encode_changes(changes@),
                            id,
                            others@,
                            sigs,
                            mids,
                            i as int,
                            e,
                            *vault,
                        );
                    }
                    return Err(e);
                },
            };
            assert(signed(before, signers[i as int], id, signature@, *vault));
            let stype = if i == 0 {
                SignatureType::SelfSign
            } else if rotate && i == 1 {
                SignatureType::PrevSign
            } else {
                SignatureType::RootSign
            };
            proof {
                sigs = sigs.push(signature@);
                mids = mids.push(*vault);
            }
            signatures.push(Signature::new(stype, signature));
            i = i + 1;
        }
        let event = ProfileChangeEvent::new(event_id, changes, signatures);
        proof {
            assert(signature_data(event@) =~= sigs);
            lemma_signed_in_turn(v3, signers, id, sigs, mids, *vault);
            assert(event@.changes == changes@);
            assert(event@.changes.data[0].change_type.key_change().public_key == pk);
            assert(event@.identifier == id);
            assert(key_made(v0, secret_key, event@.changes.data[0].change_type.key_change().public_key, v2));
            assert(digest_made(v2, encode_changes(event@.changes), event@.identifier, v3));
            assert(key_event_made(v0, event@, secret_key, others@, *vault));
        }
        Ok(event)
    }

    /// Make an event that creates a fresh key with the given attributes, following the
    /// event `prev_id`, signed by the new key and, when given, by `root_key`.
    pub fn create_key_event_static(
        prev_id: EventIdentifier,
        key_attributes: KeyAttributes,
        attributes: Option<ProfileEventAttributes>,
        root_key: Option<&Secret>,
        vault: &mut PV,
    ) -> (r: Result<ProfileChangeEvent, CoreError>)
        ensures
            r matches Ok(e) ==> created_key_event(
                e@,
                prev_id@,
                key_attributes@,
                attributes_or_empty(attributes),
                root_key is Some,
            ),
            r matches Ok(e) ==> fresh_key_event(*old(vault), e@, root_signers(root_key), *final(vault)),
            r matches Err(e) ==> key_event_refused(*old(vault), root_signers(root_key), e, *final(vault)),
            reaches(*old(vault), *final(vault)),
    {
        let attributes = match attributes {
            Some(a) => a,
            None => ProfileEventAttributes::new(),
        };
        let mut others: Vec<Secret> = Vec::new();
        match root_key {
            Some(rk) => others.push(*rk),
            None => {},
        }
        assert(others@ =~= root_signers(root_key));
        Self::make_key_event(prev_id, key_attributes, attributes, false, others.as_slice(), vault)
    }

    /// The secret key of the key with the given attributes, as `event` records it: the
    /// secret that the vault keeps under the identifier of the key's public key. Where
    /// the event records no such key, the vault is not asked.
    pub fn get_secret_key_from_event(
        key_attributes: &KeyAttributes,
        event: &ProfileChangeEvent,
        vault: &mut PV,
    ) -> (r: Result<Secret, CoreError>)
        ensures
            event_public_key(event@, key_attributes@) is None ==> r == Err::<
                Secret,
                CoreError,
            >(CoreError::Ockam(OckamError::InvalidInternalState)) && *final(vault) == *old(vault),
            event_public_key(event@, key_attributes@) matches Some(pk) ==> secret_lookup(
                *old(vault),
                pk,
                r,
                *final(vault),
            ),
            reaches(*old(vault), *final(vault)),
    {
        proof { lemma_reaches_self(*vault); }
        let public_key = match ProfileChangeHistory::get_public_key_from_event(key_attributes, event) {
            Ok(k) => k,
            Err(e) => return Err(CoreError::Ockam(e)),
        };
        let ghost v0 = *vault;
        let public_kid = vault.compute_key_id_for_public_key(&public_key);
        let ghost v1 = *vault;
        proof {
            assert(vault_step(v0, v1));
            lemma_reaches_extend(v0, v0, v1);
        }
        let public_kid = public_kid?;
        let r = vault.get_secret_by_key_id(public_kid.as_str());
        proof {
            assert(vault_step(v1, *vault));
            lemma_reaches_extend(v0, v1, *vault);
        }
        r
    }

    /// Make an event that creates a key, following the last event of the profile.
    pub fn create_key_event(
        &mut self,
        key_attributes: KeyAttributes,
        attributes: Option<ProfileEventAttributes>,
        root_key: Option<&Secret>,
    ) -> (r: Result<ProfileChangeEvent, CoreError>)
        ensures
            final(self)@ == old(self)@,
            old(self)@.events.len() == 0 ==> r == Err::<ProfileChangeEvent, CoreError>(
                CoreError::Ockam(OckamError::InvalidInternalState),
            ) && final(self).vault() == old(self).vault(),
            r matches Ok(e) ==> old(self)@.events.len() > 0 && created_key_event(
                e@,
                old(self)@.events.last().identifier,
                key_attributes@,
                attributes_or_empty(attributes),
                root_key is Some,
            ),
            r matches Ok(e) ==> fresh_key_event(old(self).vault(), e@, root_signers(root_key), final(self).vault()),
            old(self)@.events.len() > 0 ==> (r matches Err(e) ==> key_event_refused(
                old(self).vault(),
                root_signers(root_key),
                e,
                final(self).vault(),
            )),
            reaches(old(self).vault(), final(self).vault()),
    {
        proof { lemma_reaches_self(self.vault); }
        let prev_event_id = match self.change_history.get_last_event_id() {
            Ok(id) => id,
            Err(e) => return Err(CoreError::Ockam(e)),
        };
        Self::create_key_event_static(prev_event_id, key_attributes, attributes, root_key, &mut self.vault)
    }

    /// Make an event that rotates the key with the given attributes to a fresh key,
    /// following the last event of the profile.
    pub fn rotate_key_event(
        &mut self,
        key_attributes: KeyAttributes,
        attributes: Option<ProfileEventAttributes>,
        root_key: &Secret,
    ) -> (r: Result<ProfileChangeEvent, CoreError>)
        ensures
            final(self)@ == old(self)@,
            current_public_key(old(self)@.events, key_attributes@) is None ==> r == Err::<
                ProfileChangeEvent,
                CoreError,
            >(CoreError::Ockam(OckamError::InvalidInternalState)) && final(self).vault() == old(self).vault(),
            r matches Ok(e) ==> old(self)@.events.len() > 0 && rotated_key_event(
                e@,
                old(self)@.events.last().identifier,
                key_attributes@,
                attributes_or_empty(attributes),
            ),
            r matches Ok(e) ==> rotation_event_made(
                old(self).vault(),
                current_public_key(old(self)@.events, key_attributes@)->0,
                *root_key,
                e@,
                final(self).vault(),
            ),
            current_public_key(old(self)@.events, key_attributes@) matches Some(replaced) ==> (r matches Err(e)
                ==> rotation_event_refused(old(self).vault(), replaced, *root_key, e, final(self).vault())),
            reaches(old(self).vault(), final(self).vault()),
    {
        let ghost label = key_attributes@;
        let ghost v0 = self.vault;
        proof { lemma_reaches_self(v0); }
        let attributes = match attributes {
            Some(a) => a,
            None => ProfileEventAttributes::new(),
        };
        let prev_event_id = match self.change_history.get_last_event_id() {
            Ok(id) => id,
            Err(e) => {
                assert(current_public_key(self@.events, label) is None);
                return Err(CoreError::Ockam(e));
            },
        };
        let last_event_in_chain = match ProfileChangeHistory::find_last_key_event(
            self.change_history.as_ref(),
            &key_attributes,
        ) {
            Ok(e) => e,
            Err(e) => return Err(CoreError::Ockam(e)),
        };
        let ghost last = last_event_in_chain@;
        assert(current_public_key(self@.events, label) == event_public_key(last, label));
        let found = Self::get_secret_key_from_event(&key_attributes, last_event_in_chain, &mut self.vault);
        let ghost v1 = self.vault;
        let last_key_in_chain = match found {
            Ok(s) => s,
            Err(e) => return Err(e),
        };
        let mut others: Vec<Secret> = Vec::new();
        others.push(last_key_in_chain);
        others.push(*root_key);
        assert(others@ =~= two_signers(last_key_in_chain, *root_key));
        let r = Self::make_key_event(prev_event_id, key_attributes, attributes, true, others.as_slice(), &mut self.vault);
        proof {
            lemma_reaches_trans(v0, v1, self.vault);
            if r is Ok {
                assert(secret_lookup(v0, current_public_key(self@.events, label)->0, Ok(last_key_in_chain), v1));
                assert(fresh_key_event(v1, r->Ok_0@, two_signers(last_key_in_chain, *root_key), self.vault));
            }
        }
        r
    }
}

pub trait ProfileIdentity {
    /// Return unique profile identifier, which is equal to sha256 of the root public key
    fn identifier(&self) -> &ProfileIdentifier;
}

pub trait ProfileChanges {
    /// Return change history chain
    fn change_events(&self) -> &[ProfileChangeEvent];

    /// Add a change event.
    fn update_no_verification(&mut self, change_event: ProfileChangeEvent) -> Result<(), CoreError>;

    /// Verify the whole change event chain
    fn verify(&mut self) -> Result<(), CoreError>;
}

pub trait ProfileContacts {
    /// Return all contacts known to this profile
    fn contacts(&self) -> &ContactsDb;

    /// Convert the profile to a contact
    fn to_contact(&self) -> Contact;

    /// Return the contact with the given identifier
    fn get_contact(&self, id: &ProfileIdentifier) -> Option<&Contact>;

    /// Verify cryptographically whole event chain. Also verify sequence correctness
    fn verify_contact(&mut self, contact: &Contact) -> Result<(), CoreError>;

    /// Verify and add new contact to the profile's contact list
    fn verify_and_add_contact(&mut self, contact: Contact) -> Result<(), CoreError>;

    /// Verify and update known contact with new change events
    fn verify_and_update_contact(
        &mut self,
        profile_id: &ProfileIdentifier,
        change_events: Vec<ProfileChangeEvent>,
    ) -> Result<(), CoreError>;
}

pub trait ProfileAuth {
    fn generate_authentication_proof(&mut self, channel_state: &[u8]) -> Result<Vec<u8>, CoreError>;

    fn verify_authentication_proof(
        &mut self,
        channel_state: &[u8],
        responder_contact_id: &ProfileIdentifier,
        proof: &[u8],
    ) -> Result<bool, CoreError>;
}

/// Supertrait of a Profile
pub trait ProfileTrait: ProfileIdentity + ProfileChanges + ProfileContacts + ProfileAuth {

}

pub trait ProfileSecrets {
    /// Create new key. Key is uniquely identified by label in its key attributes
    fn create_key(
        &mut self,
        key_attributes: KeyAttributes,
        attributes: Option<ProfileEventAttributes>,
    ) -> Result<(), CoreError>;

    /// Rotate existing key. Key is uniquely identified by label in its key attributes
    fn rotate_key(
        &mut self,
        key_attributes: KeyAttributes,
        attributes: Option<ProfileEventAttributes>,
    ) -> Result<(), CoreError>;

    /// Get secret key. Key is uniquely identified by label in its key attributes
    fn get_secret_key(&mut self, key_attributes: &KeyAttributes) -> Result<Secret, CoreError>;

    /// Get public key. Key is uniquely identified by label in its key attributes
    fn get_public_key(&self, key_attributes: &KeyAttributes) -> Result<PublicKey, CoreError>;

    /// Get the root secret
    fn get_root_secret(&mut self) -> Result<Secret, CoreError>;
}

impl<PV: ProfileVault> ProfileIdentity for Profile<PV> {
    fn identifier(&self) -> (r: &ProfileIdentifier)
        ensures
            r@ == self@.identifier,
    {
        &self.identifier
    }
}

impl<PV: ProfileVault> ProfileChanges for Profile<PV> {
    fn change_events(&self) -> (r: &[ProfileChangeEvent])
        ensures
            events_view(r@) == self@.events,
    {
        self.change_history.as_ref()
    }

    fn update_no_verification(&mut self, change_event: ProfileChangeEvent) -> (r: Result<
        (),
        CoreError,
    >)
        ensures
            consistency(old(self)@.events, seq![change_event@]) matches Err(e) ==> (r == Err::<
                (),
                CoreError,
            >(CoreError::Ockam(e)) && final(self)@ == old(self)@),
            consistency(old(self)@.events, seq![change_event@]) is Ok ==> (r is Ok && final(self)@
                == ProfileView { events: old(self)@.events.push(change_event@), ..old(self)@ }),
            final(self).vault() == old(self).vault(),
    {
        let ghost ev = change_event@;
        let mut one: Vec<ProfileChangeEvent> = Vec::new();
        one.push(change_event);
        assert(events_view(one@) =~= seq![ev]);
        match ProfileChangeHistory::check_consistency(self.change_history.as_ref(), one.as_slice()) {
            Ok(()) => {},
            Err(e) => return Err(CoreError::Ockam(e)),
        }
        match one.pop() {
            Some(event) => self.change_history.push_event(event),
            None => {},
        }
        Ok(())
    }

    /// Verify whole event chain of current profile: the chain of events must be
    /// consistent, every event valid, and the identifier the identifier of the root
    /// key. A profile without events fails; one whose chain checks out fails only where
    /// the vault refuses a request or where its identifier is not that of its root key.
    fn verify(&mut self) -> (r: Result<(), CoreError>)
        ensures
            final(self)@ == old(self)@,
            consistency(Seq::empty(), old(self)@.events) matches Err(e) ==> r == Err::<
                (),
                CoreError,
            >(CoreError::Ockam(e)),
            old(self)@.events.len() == 0 ==> r == Err::<(), CoreError>(
                CoreError::Ockam(OckamError::VerifyFailed),
            ),
            r is Ok ==> contact_verified::<PV>(old(self)@.as_contact()),
            r matches Err(e) ==> (contact_structure_ok(old(self)@.as_contact()) && chain_verified::<PV>(
                old(self)@.events,
            ) ==> (may_refuse_verification::<PV>(old(self)@.as_contact(), e) || (e == CoreError::Ockam(
                OckamError::ProfileIdDoesntMatch,
            ) && old(self)@.identifier != PV::key_id_spec(first_root_public_key(old(self)@.events)->Ok_0)))),
            contact_verified::<PV>(old(self)@.as_contact()) ==> (r is Ok || may_refuse_verification::<PV>(
                old(self)@.as_contact(),
                r->Err_0,
            )),
            reaches(old(self).vault(), final(self).vault()),
    {
        proof { lemma_reaches_self(self.vault); }
        let no_events: Vec<ProfileChangeEvent> = Vec::new();
        assert(events_view(no_events@) =~= Seq::<EventView>::empty());
        match ProfileChangeHistory::check_consistency(no_events.as_slice(), self.change_history.as_ref()) {
            Ok(()) => {},
            Err(e) => return Err(CoreError::Ockam(e)),
        }
        self.change_history.verify_all_existing_events(&mut self.vault)?;
        let root_public_key = match self.change_history.get_first_root_public_key() {
            Ok(k) => k,
            Err(e) => return Err(CoreError::Ockam(e)),
        };
        let ghost before = self.vault;
        let key_id = self.vault.compute_key_id_for_public_key(&root_public_key);
        proof {
            assert(vault_step(before, self.vault));
            lemma_reaches_extend(old(self).vault(), before, self.vault);
        }
        let root_key_id = match key_id {
            Ok(k) => k,
            Err(e) => {
                assert(before.compute_key_id_result(first_root_public_key(self@.events)->Ok_0, Err(e), self.vault));
                return Err(e);
            },
        };
        match self.identifier.check_root_key_id(root_key_id) {
            Ok(()) => Ok(()),
            Err(e) => Err(CoreError::Ockam(e)),
        }
    }
}

impl<PV: ProfileVault> ProfileSecrets for Profile<PV> {
    fn create_key(
        &mut self,
        key_attributes: KeyAttributes,
        attributes: Option<ProfileEventAttributes>,
    ) -> (r: Result<(), CoreError>)
        ensures
            current_public_key(old(self)@.events, profile_update_label()) is None ==> r == Err::<
                (),
                CoreError,
            >(CoreError::Ockam(OckamError::InvalidInternalState)) && final(self).vault() == old(self).vault(),
            r is Err ==> final(self)@ == old(self)@,
            r is Ok ==> key_created(
                old(self).vault(),
                old(self)@,
                final(self)@,
                final(self).vault(),
                key_attributes@,
                attributes_or_empty(attributes),
            ),
            current_public_key(old(self)@.events, profile_update_label()) matches Some(root) ==> (r matches Err(
                e,
            ) ==> key_creation_refused(old(self).vault(), root, e, final(self).vault())),
            reaches(old(self).vault(), final(self).vault()),
    {
        let ghost old_events = self@.events;
        let ghost v0 = self.vault;
        let root = self.get_root_secret();
        let ghost v1 = self.vault;
        let root_secret = match root {
            Ok(s) => s,
            Err(e) => return Err(e),
        };
        let event = self.create_key_event(key_attributes, attributes, Some(&root_secret));
        proof {
            lemma_reaches_trans(v0, v1, self.vault);
            assert(root_signers(Some(&root_secret)) =~= one_signer(root_secret));
        }
        let event = match event {
            Ok(e) => e,
            Err(e) => return Err(e),
        };
        proof {
            lemma_single_event_consistency(old_events, event@);
            lemma_plan_created_key_event(old_events, event@);
            lemma_new_key_is_current(old_events, event@);
        }
        let ghost e = event@;
        let ghost before = self@;
        let ghost vf = self.vault;
        let r = self.update_no_verification(event);
        assert(key_creation_event(v0, before, self@, vf, e, key_attributes@, attributes_or_empty(attributes)));
        r
    }

    fn rotate_key(
        &mut self,
        key_attributes: KeyAttributes,
        attributes: Option<ProfileEventAttributes>,
    ) -> (r: Result<(), CoreError>)
        ensures
            current_public_key(old(self)@.events, profile_update_label()) is None ==> r == Err::<
                (),
                CoreError,
            >(CoreError::Ockam(OckamError::InvalidInternalState)) && final(self).vault() == old(self).vault(),
            current_public_key(old(self)@.events, key_attributes@) is None ==> r is Err,
            r is Err ==> final(self)@ == old(self)@,
            r is Ok ==> key_rotated(
                old(self).vault(),
                old(self)@,
                final(self)@,
                final(self).vault(),
                key_attributes@,
                attributes_or_empty(attributes),
            ),
            current_public_key(old(self)@.events, profile_update_label()) matches Some(root) ==> (
            current_public_key(old(self)@.events, key_attributes@) matches Some(replaced) ==> (r matches Err(e)
                ==> key_rotation_refused(old(self).vault(), root, replaced, e, final(self).vault()))),
            reaches(old(self).vault(), final(self).vault()),
    {
        let ghost old_events = self@.events;
        let ghost label = key_attributes@;
        let ghost v0 = self.vault;
        let root = self.get_root_secret();
        let ghost v1 = self.vault;
        let root_secret = match root {
            Ok(s) => s,
            Err(e) => return Err(e),
        };
        let event = self.rotate_key_event(key_attributes, attributes, &root_secret);
        proof { lemma_reaches_trans(v0, v1, self.vault); }
        let event = match event {
            Ok(e) => e,
            Err(e) => return Err(e),
        };
        proof {
            lemma_single_event_consistency(old_events, event@);
            lemma_plan_rotated_key_event(old_events, event@);
            lemma_new_key_is_current(old_events, event@);
        }
        let ghost e = event@;
        let ghost before = self@;
        let ghost vf = self.vault;
        let r = self.update_no_verification(event);
        assert(key_rotation_event(v0, before, self@, vf, e, label, attributes_or_empty(attributes)));
        r
    }

    /// Get secret key. Key is uniquely identified by label in its key attributes
    fn get_secret_key(&mut self, key_attributes: &KeyAttributes) -> (r: Result<Secret, CoreError>)
        ensures
            final(self)@ == old(self)@,
            current_public_key(old(self)@.events, key_attributes@) is None ==> r == Err::<
                Secret,
                CoreError,
            >(CoreError::Ockam(OckamError::InvalidInternalState)) && final(self).vault() == old(self).vault(),
            current_public_key(old(self)@.events, key_attributes@) matches Some(pk) ==> secret_lookup(
                old(self).vault(),
                pk,
                r,
                final(self).vault(),
            ),
            reaches(old(self).vault(), final(self).vault()),
    {
        proof { lemma_reaches_self(self.vault); }
        let event = match ProfileChangeHistory::find_last_key_event(
            self.change_history.as_ref(),
            key_attributes,
        ) {
            Ok(e) => e,
            Err(e) => return Err(CoreError::Ockam(e)),
        };
        Self::get_secret_key_from_event(key_attributes, event, &mut self.vault)
    }

    fn get_public_key(&self, key_attributes: &KeyAttributes) -> (r: Result<PublicKey, CoreError>)
        ensures
            match current_public_key(self@.events, key_attributes@) {
                Some(k) => r matches Ok(pk) && pk@ == k,
                None => r == Err::<PublicKey, CoreError>(
                    CoreError::Ockam(OckamError::InvalidInternalState),
                ),
            },
    {
        match self.change_history.get_public_key(key_attributes) {
            Ok(k) => Ok(k),
            Err(e) => Err(CoreError::Ockam(e)),
        }
    }

    fn get_root_secret(&mut self) -> (r: Result<Secret, CoreError>)
        ensures
            final(self)@ == old(self)@,
            current_public_key(old(self)@.events, profile_update_label()) is None ==> r == Err::<
                Secret,
                CoreError,
            >(CoreError::Ockam(OckamError::InvalidInternalState)) && final(self).vault() == old(self).vault(),
            current_public_key(old(self)@.events, profile_update_label()) matches Some(pk) ==> secret_lookup(
                old(self).vault(),
                pk,
                r,
                final(self).vault(),
            ),
            reaches(old(self).vault(), final(self).vault()),
    {
        proof { lemma_reaches_self(self.vault); }
        let public_key = match ProfileChangeHistory::get_current_profile_update_public_key(
            self.change_history.as_ref(),
        ) {
            Ok(k) => k,
            Err(e) => return Err(CoreError::Ockam(e)),
        };
        let ghost v0 = self.vault;
        let key_id = self.vault.compute_key_id_for_public_key(&public_key);
        let ghost v1 = self.vault;
        proof {
            assert(vault_step(v0, v1));
            lemma_reaches_extend(v0, v0, v1);
        }
        let key_id = key_id?;
        let r = self.vault.get_secret_by_key_id(key_id.as_str());
        proof {
            assert(vault_step(v1, self.vault));
            lemma_reaches_extend(v0, v1, self.vault);
        }
        r
    }
}

impl<PV: ProfileVault> ProfileContacts for Profile<PV> {
    fn contacts(&self) -> (r: &ContactsDb)
        ensures
            r@ == self@.contacts,
    {
        &self.contacts
    }

    fn to_contact(&self) -> (c: Contact)
        ensures
            c@ == (ContactView { identifier: self@.identifier, events: self@.events }),
    {
        Contact::new(self.identifier.duplicate(), copy_events(self.change_history.as_ref()))
    }

    fn get_contact(&self, id: &ProfileIdentifier) -> (r: Option<&Contact>)
        ensures
            match r {
                Some(c) => self@.contacts.contains_key(id@) && c@ == self@.contacts[id@],
                None => !self@.contacts.contains_key(id@),
            },
    {
        self.contacts.get(id)
    }

    fn verify_contact(&mut self, contact: &Contact) -> (r: Result<(), CoreError>)
        ensures
            final(self)@ == old(self)@,
            consistency(Seq::empty(), contact@.events) matches Err(e) ==> r == Err::<(), CoreError>(
                CoreError::Ockam(e),
            ),
            contact@.events.len() == 0 ==> r == Err::<(), CoreError>(
                CoreError::Ockam(OckamError::VerifyFailed),
            ),
            r is Ok ==> contact_verified::<PV>(contact@),
            r matches Err(e) ==> (contact_structure_ok(contact@) && chain_verified::<PV>(contact@.events)
                ==> (may_refuse_verification::<PV>(contact@, e) || (e == CoreError::Ockam(
                OckamError::ProfileIdDoesntMatch,
            ) && contact@.identifier != PV::key_id_spec(first_root_public_key(contact@.events)->Ok_0)))),
            contact_verified::<PV>(contact@) ==> (r is Ok || may_refuse_verification::<PV>(contact@, r->Err_0)),
            reaches(old(self).vault(), final(self).vault()),
    {
        contact.verify(&mut self.vault)
    }

    fn verify_and_add_contact(&mut self, contact: Contact) -> (r: Result<(), CoreError>)
        ensures
            consistency(Seq::empty(), contact@.events) matches Err(e) ==> r == Err::<(), CoreError>(
                CoreError::Ockam(e),
            ),
            contact@.events.len() == 0 ==> r == Err::<(), CoreError>(
                CoreError::Ockam(OckamError::VerifyFailed),
            ),
            r matches Err(e) ==> (contact_structure_ok(contact@) && chain_verified::<PV>(contact@.events)
                ==> (may_refuse_verification::<PV>(contact@, e) || (e == CoreError::Ockam(
                OckamError::ProfileIdDoesntMatch,
            ) && contact@.identifier != PV::key_id_spec(first_root_public_key(contact@.events)->Ok_0)))),
            contact_verified::<PV>(contact@) ==> (r is Ok || may_refuse_verification::<PV>(contact@, r->Err_0)),
            r is Err ==> final(self)@ == old(self)@,
            r is Ok ==> (contact_verified::<PV>(contact@) && final(self)@ == (ProfileView {
                contacts: old(self)@.contacts.insert(contact@.identifier, contact@),
                ..old(self)@
            })),
            reaches(old(self).vault(), final(self).vault()),
    {
        self.verify_contact(&contact)?;
        self.contacts.insert(contact);
        Ok(())
    }

    fn verify_and_update_contact(
        &mut self,
        profile_id: &ProfileIdentifier,
        change_events: Vec<ProfileChangeEvent>,
    ) -> (r: Result<(), CoreError>)
        ensures
            final(self)@.identifier == old(self)@.identifier,
            final(self)@.events == old(self)@.events,
            !old(self)@.contacts.contains_key(profile_id@) ==> r == Err::<(), CoreError>(
                CoreError::Ockam(OckamError::ContactNotFound),
            ) && final(self)@ == old(self)@,
            old(self)@.contacts.contains_key(profile_id@) ==> exists|c: ContactView|
                final(self)@.contacts == old(self)@.contacts.insert(profile_id@, c)
                    && #[trigger] contact_update_outcome::<PV>(
                    old(self)@.contacts[profile_id@],
                    events_view(change_events@),
                    r,
                    c,
                ),
            reaches(old(self).vault(), final(self).vault()),
    {
        self.contacts.verify_and_update_contact(profile_id, change_events, &mut self.vault)
    }
}

impl<PV: ProfileVault> ProfileAuth for Profile<PV> {
    /// Generate a proof of possession of the profile: the signature of `channel_state`
    /// by its root key. `channel_state` should be tied to the channel's cryptographic
    /// material (e.g. the h value of Noise XX).
    fn generate_authentication_proof(&mut self, channel_state: &[u8]) -> (r: Result<
        Vec<u8>,
        CoreError,
    >)
        ensures
            final(self)@ == old(self)@,
            current_public_key(old(self)@.events, profile_update_label()) is None ==> r == Err::<
                Vec<u8>,
                CoreError,
            >(CoreError::Ockam(OckamError::InvalidInternalState)) && final(self).vault() == old(self).vault(),
            current_public_key(old(self)@.events, profile_update_label()) matches Some(pk) ==> proof_made(
                old(self).vault(),
                pk,
                channel_state@,
                r,
                final(self).vault(),
            ),
            reaches(old(self).vault(), final(self).vault()),
    {
        let ghost v0 = self.vault;
        let root_secret = self.get_root_secret()?;
        let ghost v1 = self.vault;
        let r = generate_proof(channel_state, &root_secret, &mut self.vault);
        proof { lemma_reaches_extend(v0, v1, self.vault); }
        r
    }

    /// Verify a proof of possession of the profile with the given identifier, checked
    /// against the current root key of that contact. `channel_state` should be tied to
    /// the channel's cryptographic material (e.g. the h value of Noise XX).
    fn verify_authentication_proof(
        &mut self,
        channel_state: &[u8],
        responder_contact_id: &ProfileIdentifier,
        proof: &[u8],
    ) -> (r: Result<bool, CoreError>)
        ensures
            final(self)@ == old(self)@,
            !old(self)@.contacts.contains_key(responder_contact_id@) ==> r == Err::<bool, CoreError>(
                CoreError::Ockam(OckamError::ContactNotFound),
            ),
            old(self)@.contacts.contains_key(responder_contact_id@) && current_public_key(
                old(self)@.contacts[responder_contact_id@].events,
                profile_update_label(),
            ) is None ==> r == Err::<bool, CoreError>(
                CoreError::Ockam(OckamError::InvalidInternalState),
            ),
            old(self)@.contacts.contains_key(responder_contact_id@) && current_public_key(
                old(self)@.contacts[responder_contact_id@].events,
                profile_update_label(),
            ) is Some && proof_signature(proof@) is None ==> r == Err::<bool, CoreError>(
                CoreError::Ockam(OckamError::BareError),
            ),
            old(self)@.contacts.contains_key(responder_contact_id@) ==> (current_public_key(
                old(self)@.contacts[responder_contact_id@].events,
                profile_update_label(),
            ) matches Some(pk) ==> (proof_signature(proof@) matches Some(sig) ==> r == Ok::<
                bool,
                CoreError,
            >(PV::verifies(sig, pk, channel_state@)))),
            old(self)@.contacts.contains_key(responder_contact_id@) ==> (current_public_key(
                old(self)@.contacts[responder_contact_id@].events,
                profile_update_label(),
            ) matches Some(pk) ==> (proof_signature(proof@) matches Some(sig) ==> verification_answered::<
                PV,
            >(old(self).vault(), sig, pk, channel_state@, final(self).vault()))),
            r is Err ==> final(self).vault() == old(self).vault(),
            reaches(old(self).vault(), final(self).vault()),
    {
        proof { lemma_reaches_self(self.vault); }
        let public_key = match self.contacts.get(responder_contact_id) {
            None => return Err(CoreError::Ockam(OckamError::ContactNotFound)),
            Some(contact) => match contact.get_profile_update_public_key() {
                Ok(k) => k,
                Err(e) => return Err(CoreError::Ockam(e)),
            },
        };
        let ghost v0 = self.vault;
        let r = verify_proof(channel_state, &public_key, proof, &mut self.vault);
        proof {
            if proof_signature(proof@) is Some {
                lemma_reaches_extend(v0, v0, self.vault);
            }
        }
        r
    }
}

impl<PV: ProfileVault> ProfileTrait for Profile<PV> {

}

/// Whether `p`, with its vault as `vault_after`, is what creating a profile from
/// `vault` leads to, with `e` its first event and `attributes` those of its first
/// change: the profile holds that one event, which creates the profile update key and
/// names the digest of the bytes of `NO_EVENT` as the event before it; the vault
/// hashed those bytes, made the event with a fresh secret, and gave the identifier of
/// the new key, which is the profile's identifier; the chain passes the structural
/// checks of verification; and the profile knows no contacts.
pub open spec fn first_profile_event<PV: ProfileVault>(
    vault: PV,
    p: ProfileView,
    vault_after: PV,
    e: EventView,
    attributes: Seq<(Seq<char>, Seq<char>)>,
) -> bool {
    let root = e.changes.data[0].change_type.key_change().public_key;
    &&& p.events == seq![e]
    &&& p.contacts == Map::<Seq<char>, ContactView>::empty()
    &&& created_key_event(
        e,
        PV::sha256_spec(Profile::<PV>::NO_EVENT.spec_bytes()),
        profile_update_label(),
        attributes,
        false,
    )
    &&& p.identifier == PV::key_id_spec(root)
    &&& consistency(Seq::empty(), p.events) is Ok
    &&& signatures_well_formed(p.events)
    &&& first_root_public_key(p.events) == Ok::<Seq<u8>, OckamError>(root)
    &&& current_public_key(p.events, profile_update_label()) == Some(root)
    &&& exists|h: [u8; 32], hashed: PV, made: PV, k: KeyId|
        #![trigger vault.sha256_result(Profile::<PV>::NO_EVENT.spec_bytes(), Ok(h), hashed), made.compute_key_id_result(root, Ok(k), vault_after)]
        vault.sha256_result(Profile::<PV>::NO_EVENT.spec_bytes(), Ok(h), hashed) && fresh_key_event(
            hashed,
            e,
            Seq::<Secret>::empty(),
            made,
        ) && made.compute_key_id_result(root, Ok(k), vault_after)
}

/// Whether creating a profile from `vault` leads to `p`, with its vault as
/// `vault_after`, the first change having `attributes`.
pub open spec fn created_profile<PV: ProfileVault>(
    vault: PV,
    p: ProfileView,
    vault_after: PV,
    attributes: Seq<(Seq<char>, Seq<char>)>,
) -> bool {
    exists|e: EventView| #[trigger] first_profile_event(vault, p, vault_after, e, attributes)
}

/// Whether `vault`, creating a profile, refuses one of the requests with the error `e`
/// after answering the ones before it, and is left as `after`: the digest of the bytes
/// of `NO_EVENT`, one of the requests made in making the first key event, or the
/// identifier of the new key.
pub open spec fn creation_refused<PV: ProfileVault>(vault: PV, e: CoreError, after: PV) -> bool {
    ||| vault.sha256_result(Profile::<PV>::NO_EVENT.spec_bytes(), Err(e), after)
    ||| exists|h: [u8; 32], hashed: PV|
        #[trigger] vault.sha256_result(Profile::<PV>::NO_EVENT.spec_bytes(), Ok(h), hashed) && (key_event_refused(
            hashed,
            Seq::<Secret>::empty(),
            e,
            after,
        ) || exists|ev: EventView, made: PV, pk: Seq<u8>|
            #![trigger fresh_key_event(hashed, ev, Seq::<Secret>::empty(), made), made.compute_key_id_result(pk, Err(e), after)]
            fresh_key_event(hashed, ev, Seq::<Secret>::empty(), made) && made.compute_key_id_result(
                pk,
                Err(e),
                after,
            ))
}

impl<PV: ProfileVault> Profile<PV> {
    /// Generate a fresh profile update key and create a new profile using it.
    fn create_internal(attributes: Option<ProfileEventAttributes>, vault: PV) -> (r: Result<
        Self,
        CoreError,
    >)
        ensures
            r matches Ok(p) ==> created_profile(vault, p@, p.vault(), attributes_or_empty(attributes)),
            r matches Err(e) ==> exists|after: PV| #[trigger] creation_refused(vault, e, after),
    {
        let ghost attrs = attributes_or_empty(attributes);
        let ghost v0 = vault;
        let mut vault = vault;
        let digest = vault.sha256(Self::NO_EVENT.as_bytes());
        let ghost v1 = vault;
        let prev_id = match digest {
            Ok(h) => h,
            Err(e) => {
                assert(creation_refused(v0, e, v1));
                return Err(e);
            },
        };
        let ghost h = prev_id;
        let prev_id = EventIdentifier::from_hash(prev_id);
        let key_attributes = profile_update_key_attributes();
        let made = Self::create_key_event_static(
            prev_id,
            key_attributes.duplicate(),
            attributes,
            None,
            &mut vault,
        );
        let ghost v2 = vault;
        proof {
            assert(root_signers(None) =~= Seq::<Secret>::empty());
        }
        let change_event = match made {
            Ok(e) => e,
            Err(e) => {
                assert(creation_refused(v0, e, v2));
                return Err(e);
            },
        };
        let ghost e = change_event@;
        proof {
            lemma_first_event_chain(e);
        }
        let public_key = {
            let change = match ProfileChangeHistory::find_key_change_in_event(
                &change_event,
                &key_attributes,
            ) {
                Some(c) => c,
                None => return Err(CoreError::Ockam(OckamError::InvalidInternalState)),
            };
            match ProfileChangeHistory::get_change_public_key(change) {
                Ok(k) => k,
                Err(e) => return Err(CoreError::Ockam(e)),
            }
        };
        let key_id = vault.compute_key_id_for_public_key(&public_key);
        let ghost v3 = vault;
        let public_kid = match key_id {
            Ok(k) => k,
            Err(err) => {
                assert(fresh_key_event(v1, e, Seq::<Secret>::empty(), v2) && v2.compute_key_id_result(
                    public_key@,
                    Err(err),
                    v3,
                ));
                assert(creation_refused(v0, err, v3));
                return Err(err);
            },
        };
        let ghost k = public_kid;
        let public_kid = ProfileIdentifier::from_key_id(public_kid);
        let mut events: Vec<ProfileChangeEvent> = Vec::new();
        events.push(change_event);
        assert(events_view(events@) =~= seq![e]);
        let profile = Profile::new(public_kid, events, ContactsDb::new(), vault);
        assert(created_key_event(
            e,
            PV::sha256_spec(Self::NO_EVENT.spec_bytes()),
            profile_update_label(),
            attrs,
            false,
        ));
        assert(v0.sha256_result(Self::NO_EVENT.spec_bytes(), Ok(h), v1));
        assert(v2.compute_key_id_result(e.changes.data[0].change_type.key_change().public_key, Ok(k), v3));
        assert(first_profile_event(v0, profile@, profile.vault(), e, attrs));
        Ok(profile)
    }

    /// Generate a fresh profile update key and create a new profile using it, with its
    /// secrets kept in `vault`.
    pub fn create_with_attributes(attributes: Option<ProfileEventAttributes>, vault: PV) -> (r:
        Result<Self, CoreError>)
        ensures
            r matches Ok(p) ==> created_profile(vault, p@, p.vault(), attributes_or_empty(attributes)),
            r matches Err(e) ==> exists|after: PV| #[trigger] creation_refused(vault, e, after),
    {
        Self::create_internal(attributes, vault)
    }

    /// Generate a fresh profile update key and create a new profile using it, with its
    /// secrets kept in `vault`: what `create_with_attributes` does with no attributes.
    pub fn create(vault: PV) -> (r: Result<Self, CoreError>)
        ensures
            r matches Ok(p) ==> created_profile(vault, p@, p.vault(), Seq::empty()),
            r matches Err(e) ==> exists|after: PV| #[trigger] creation_refused(vault, e, after),
    {
        Self::create_with_attributes(None, vault)
    }
}

/// The chain made of the first event of a profile passes the structural checks of
/// verification, and its root key is the key that the event creates.
proof fn lemma_first_event_chain(e: EventView)
    requires
        created_key_event(e, e.changes.prev_event_id, profile_update_label(), e.changes.data[0].attributes, false),
    ensures
        consistency(Seq::empty(), seq![e]) is Ok,
        signatures_well_formed(seq![e]),
        first_root_public_key(seq![e]) == Ok::<Seq<u8>, OckamError>(
            e.changes.data[0].change_type.key_change().public_key,
        ),
        current_public_key(seq![e], profile_update_label()) == Some(
            e.changes.data[0].change_type.key_change().public_key,
        ),
{
    let h = seq![e];
    assert(h[0] == e);
    assert(crate::history::consistency_upto(Seq::empty(), h, 0) is Ok);
    lemma_plan_first_event(e);
    assert(h.subrange(0, 0) =~= Seq::<EventView>::empty());
    assert(signatures_well_formed(h));
    let data = e.changes.data;
    assert(data.drop_last() =~= Seq::<crate::change::ProfileChangeView>::empty());
    assert(crate::history::last_change_index(data, profile_update_label()) == Some(0int));
    assert(h.drop_last() =~= Seq::<EventView>::empty());
    assert(crate::history::last_key_event_index(h, profile_update_label()) == Some(0int));
}

// ---------------------------------------------------------------------------
// Laws
// ---------------------------------------------------------------------------

/// A key that the last event of a chain creates or rotates is the current key of its
/// label: reading a key after writing it gives back what was written.
pub proof fn lemma_new_key_is_current(events: Seq<EventView>, e: EventView)
    requires
        e.changes.data.len() == 1,
    ensures
        current_public_key(events.push(e), e.changes.data[0].change_type.key_change().label) == Some(
            e.changes.data[0].change_type.key_change().public_key,
        ),
{
    let label = e.changes.data[0].change_type.key_change().label;
    let h = events.push(e);
    assert(h.last() == e);
    assert(e.changes.data.drop_last() =~= Seq::<crate::change::ProfileChangeView>::empty());
    assert(crate::history::last_change_index(e.changes.data, label) == Some(0int));
    assert(crate::history::last_key_event_index(h, label) == Some(events.len() as int));
}

/// A chain that passes the structural checks of verification still passes them after
/// an event that may follow it and carries the signatures that its place calls for is
/// appended: what `create_key`, `rotate_key` and `update_no_verification` append keeps
/// a valid chain valid.
pub proof fn lemma_chain_stays_valid(events: Seq<EventView>, e: EventView)
    requires
        consistency(Seq::empty(), events) is Ok,
        signatures_well_formed(events),
        consistency(events, seq![e]) is Ok,
        signature_plan(events, e) is Ok,
    ensures
        consistency(Seq::empty(), events.push(e)) is Ok,
        signatures_well_formed(events.push(e)),
        first_root_public_key(events) is Ok ==> first_root_public_key(events.push(e)) == first_root_public_key(events),
{
    crate::history::lemma_consistency_append(events, seq![e]);
    assert(events + seq![e] =~= events.push(e));
    crate::history::lemma_signatures_append(events, e);
    if events.len() > 0 {
        assert(events.push(e)[0] == events[0]);
    }
}

/// A contact added to the contacts is found under its identifier, as it was added.
pub proof fn lemma_added_contact_is_found(contacts: Map<Seq<char>, ContactView>, c: ContactView)
    ensures
        contacts.insert(c.identifier, c).contains_key(c.identifier),
        contacts.insert(c.identifier, c)[c.identifier] == c,
        forall|k: Seq<char>|
            k != c.identifier ==> (#[trigger] contacts.insert(c.identifier, c).contains_key(k)
                == contacts.contains_key(k)),
{
}

/// A contact that knows the first `n` events of a profile whose chain checks out,
/// updated with the events after them, knows all of the profile's events once the
/// update succeeds; and the update fails only where the vault refuses to hash the
/// changes of one of the profile's events.
pub proof fn lemma_contact_catches_up<V: ProfileVault>(
    before: ContactView,
    profile_events: Seq<EventView>,
    n: nat,
    r: Result<(), CoreError>,
    after: ContactView,
)
    requires
        0 < n <= profile_events.len(),
        before.events == profile_events.subrange(0, n as int),
        consistency(Seq::empty(), profile_events) is Ok,
        chain_verified::<V>(profile_events),
        contact_update_outcome::<V>(before, profile_events.subrange(n as int, profile_events.len() as int), r, after),
    ensures
        r is Ok ==> after.events == profile_events,
        r matches Err(e) ==> may_refuse_hash::<V>(profile_events, e),
        after.identifier == before.identifier,
{
    let rest = profile_events.subrange(n as int, profile_events.len() as int);
    assert(before.events + rest =~= profile_events);
    crate::history::lemma_consistency_split(before.events, rest);
    assert(crate::history::chain_verified_from::<V>(before.events + rest, before.events.len() as int)) by {
        assert forall|i: int| before.events.len() <= i < profile_events.len() implies #[trigger] event_verified::<V>(
            profile_events.subrange(0, i),
            profile_events[i],
        ) by {
            assert(event_verified::<V>(profile_events.subrange(0, i), profile_events[i]));
        }
    }
}

/// Appending an event that checks out against a chain that checks out gives a chain
/// that checks out.
proof fn lemma_chain_verified_push<PV: ProfileVault>(events: Seq<EventView>, e: EventView)
    requires
        chain_verified::<PV>(events),
        event_verified::<PV>(events, e),
    ensures
        chain_verified::<PV>(events.push(e)),
{
    let h = events.push(e);
    assert forall|i: int| 0 <= i < h.len() implies #[trigger] event_verified::<PV>(h.subrange(0, i), h[i]) by {
        if i < events.len() {
            assert(h.subrange(0, i) =~= events.subrange(0, i));
            assert(event_verified::<PV>(events.subrange(0, i), events[i]));
        } else {
            assert(h.subrange(0, i) =~= events);
        }
    }
}

/// The structural checks and the identifier of a profile that checks out still hold
/// after an event that checks out against its chain and may follow it is appended.
proof fn lemma_verified_after_push<PV: ProfileVault>(before: ProfileView, after: ProfileView, e: EventView)
    requires
        contact_verified::<PV>(before.as_contact()),
        after == (ProfileView { events: before.events.push(e), ..before }),
        consistency(before.events, seq![e]) is Ok,
        event_verified::<PV>(before.events, e),
    ensures
        contact_verified::<PV>(after.as_contact()),
{
    lemma_chain_verified_push::<PV>(before.events, e);
    lemma_chain_stays_valid(before.events, e);
}

/// A change about one key leaves the current keys of the other labels as they were.
pub proof fn lemma_current_after_push(events: Seq<EventView>, e: EventView, label: Seq<char>)
    requires
        e.changes.data.len() == 1,
        e.changes.data[0].change_type.key_change().label != label,
    ensures
        current_public_key(events.push(e), label) == current_public_key(events, label),
{
    let h = events.push(e);
    assert(h.last() == e);
    assert(h.drop_last() =~= events);
    assert(e.changes.data.drop_last() =~= Seq::<crate::change::ProfileChangeView>::empty());
    assert(e.changes.data.last() == e.changes.data[0]);
    assert(!crate::history::change_has_label(e.changes.data.last(), label));
    assert(crate::history::last_change_index(e.changes.data.drop_last(), label) is None);
    assert(crate::history::last_change_index(e.changes.data, label) is None);
    let i = crate::history::last_key_event_index(events, label);
    if i is Some {
        lemma_last_key_event_in_range(events, label);
        assert(h[i->0] == events[i->0]);
    }
}

proof fn lemma_last_key_event_in_range(events: Seq<EventView>, label: Seq<char>)
    ensures
        crate::history::last_key_event_index(events, label) matches Some(i) ==> 0 <= i < events.len(),
    decreases events.len(),
{
    if events.len() > 0 {
        lemma_last_key_event_in_range(events.drop_last(), label);
    }
}

/// Whether `vault` holds a secret for the current key of every label of a chain.
pub open spec fn holds_keys<PV: ProfileVault>(vault: PV, events: Seq<EventView>) -> bool {
    forall|label: Seq<char>|
        #[trigger] current_public_key(events, label) is Some ==> exists|s: Secret|
            reports(vault, s, current_public_key(events, label)->0)
}

/// Whether a profile is sound with its vault: it checks out as its own verification
/// checks it, its vault is well formed, and its vault holds a secret for the current
/// key of every label.
pub open spec fn profile_sound<PV: ProfileVault>(p: ProfileView, vault: PV) -> bool {
    &&& contact_verified::<PV>(p.as_contact())
    &&& well_formed(vault)
    &&& holds_keys(vault, p.events)
}

/// Requests in turn keep a sound profile sound: every operation of a profile that
/// leaves its chain as it was (verifications, lookups, proofs) keeps it sound.
pub proof fn lemma_sound_after_requests<PV: ProfileVault>(p: ProfileView, vault: PV, after: PV)
    requires
        requests_keep_well_formed::<PV>(),
        profile_sound(p, vault),
        reaches(vault, after),
    ensures
        profile_sound(p, after),
{
    lemma_reaches_keeps(vault, after);
    assert forall|label: Seq<char>| #[trigger] current_public_key(p.events, label) is Some implies exists|s: Secret|
        reports(after, s, current_public_key(p.events, label)->0) by {
        let s = choose|s: Secret| reports(vault, s, current_public_key(p.events, label)->0);
        assert(reports(after, s, current_public_key(p.events, label)->0));
    }
}

/// What a well-formed vault does in making a key event: it stays well formed and
/// keeps the keys that it reported, it reports the new key for the fresh secret, and
/// each signature is valid under the key of the secret that made it.
proof fn lemma_key_event_sound<PV: ProfileVault>(
    vault: PV,
    e: EventView,
    secret: Secret,
    others: Seq<Secret>,
    other_keys: Seq<Seq<u8>>,
    after: PV,
)
    requires
        requests_keep_well_formed::<PV>(),
        well_formed(vault),
        key_event_made(vault, e, secret, others, after),
        others.len() == other_keys.len(),
        others.len() <= 2,
        forall|j: int| 0 <= j < others.len() ==> #[trigger] reports(vault, others[j], other_keys[j]),
    ensures
        reaches(vault, after),
        well_formed(after),
        forall|s: Secret, k: Seq<u8>| reports(vault, s, k) ==> #[trigger] reports(after, s, k),
        reports(after, secret, e.changes.data[0].change_type.key_change().public_key),
        e.signatures.len() == others.len() + 1,
        PV::verifies(e.signatures[0].data, e.changes.data[0].change_type.key_change().public_key, e.identifier),
        others.len() >= 1 ==> PV::verifies(e.signatures[1].data, other_keys[0], e.identifier),
        others.len() >= 2 ==> PV::verifies(e.signatures[2].data, other_keys[1], e.identifier),
{
    let pk = e.changes.data[0].change_type.key_change().public_key;
    let id = e.identifier;
    let (made, hashed) = choose|made: PV, hashed: PV|
        #![trigger key_made(vault, secret, pk, made), digest_made(made, encode_changes(e.changes), id, hashed)]
        key_made(vault, secret, pk, made) && digest_made(made, encode_changes(e.changes), id, hashed)
            && signed_in_turn(hashed, seq![secret] + others, id, signature_data(e), after);
    let signers = seq![secret] + others;
    let sigs = signature_data(e);
    assert(sigs.len() == e.signatures.len());
    lemma_key_made(vault, secret, pk, made);
    lemma_reaches_self(made);
    assert(vault_step(made, hashed));
    lemma_reaches_extend(vault, made, hashed);
    lemma_reaches_extend(made, made, hashed);
    lemma_reaches_keeps(vault, hashed);
    lemma_reaches_keeps(made, hashed);
    // the vault after each signature, in turn
    let states: Seq<PV> = if signers.len() == 1 {
        seq![hashed, after]
    } else if signers.len() == 2 {
        let m1 = choose|m1: PV|
            #[trigger] signed(hashed, signers[0], id, sigs[0], m1) && signed(m1, signers[1], id, sigs[1], after);
        seq![hashed, m1, after]
    } else {
        let (m1, m2) = choose|m1: PV, m2: PV|
            #![trigger signed(hashed, signers[0], id, sigs[0], m1), signed(m1, signers[1], id, sigs[1], m2)]
            signed(hashed, signers[0], id, sigs[0], m1) && signed(m1, signers[1], id, sigs[1], m2)
                && signed(m2, signers[2], id, sigs[2], after);
        seq![hashed, m1, m2, after]
    };
    assert(states.len() == signers.len() + 1);
    assert(states[0] == hashed);
    assert(signers[0] == secret);
    lemma_sign_step(vault, made, states[0], secret, pk, id, sigs[0], states[1]);
    if signers.len() >= 2 {
        assert(signers[1] == others[0]);
        assert(reports(vault, others[0], other_keys[0]));
        lemma_sign_step(vault, made, states[1], others[0], other_keys[0], id, sigs[1], states[2]);
    }
    if signers.len() >= 3 {
        assert(signers[2] == others[1]);
        assert(reports(vault, others[1], other_keys[1]));
        lemma_sign_step(vault, made, states[2], others[1], other_keys[1], id, sigs[2], states[3]);
    }
    assert(states[signers.len() as int] == after);
    lemma_reaches_keeps(made, after);
    assert(sigs[0] == e.signatures[0].data);
    if others.len() >= 1 {
        assert(sigs[1] == e.signatures[1].data);
    }
    if others.len() >= 2 {
        assert(sigs[2] == e.signatures[2].data);
    }
}

/// One signature in a run of requests from a well-formed vault: it is valid under the
/// key that the vault reports for its secret, and the run goes on.
proof fn lemma_sign_step<PV: ProfileVault>(
    vault: PV,
    made: PV,
    current: PV,
    secret: Secret,
    public_key: Seq<u8>,
    data: Seq<u8>,
    signature: Seq<u8>,
    next: PV,
)
    requires
        requests_keep_well_formed::<PV>(),
        well_formed(vault),
        reaches(vault, current),
        reaches(made, current),
        reports(current, secret, public_key),
        signed(current, secret, data, signature, next),
    ensures
        PV::verifies(signature, public_key, data),
        reaches(vault, next),
        reaches(made, next),
        well_formed(next),
        forall|s: Secret, k: Seq<u8>| reports(vault, s, k) ==> #[trigger] reports(next, s, k),
{
    lemma_reaches_keeps(vault, current);
    lemma_signed(current, secret, public_key, data, signature, next);
    lemma_reaches_extend(vault, current, next);
    lemma_reaches_extend(made, current, next);
    lemma_reaches_keeps(vault, next);
}

/// A newly created profile is sound with its vault, where the vault it was created
/// from is well formed and the requests keep a well-formed vault well formed: its
/// verification fails only where the vault refuses a request.
pub proof fn lemma_created_profile_is_sound<PV: ProfileVault>(
    vault: PV,
    p: ProfileView,
    vault_after: PV,
    attributes: Seq<(Seq<char>, Seq<char>)>,
)
    requires
        requests_keep_well_formed::<PV>(),
        well_formed(vault),
        created_profile(vault, p, vault_after, attributes),
    ensures
        profile_sound(p, vault_after),
{
    let e = choose|e: EventView| #[trigger] first_profile_event(vault, p, vault_after, e, attributes);
    let root = e.changes.data[0].change_type.key_change().public_key;
    let (h, hashed, sk, made, k) = choose|h: [u8; 32], hashed: PV, sk: Secret, made: PV, k: KeyId|
        #![trigger vault.sha256_result(Profile::<PV>::NO_EVENT.spec_bytes(), Ok(h), hashed), key_event_made(hashed, e, sk, Seq::<Secret>::empty(), made), made.compute_key_id_result(root, Ok(k), vault_after)]
        vault.sha256_result(Profile::<PV>::NO_EVENT.spec_bytes(), Ok(h), hashed) && key_event_made(
            hashed,
            e,
            sk,
            Seq::<Secret>::empty(),
            made,
        ) && made.compute_key_id_result(root, Ok(k), vault_after);
    assert(vault_step(vault, hashed));
    lemma_reaches_self(vault);
    lemma_reaches_extend(vault, vault, hashed);
    lemma_reaches_keeps(vault, hashed);
    lemma_key_event_sound(hashed, e, sk, Seq::empty(), Seq::empty(), made);
    assert(vault_step(made, vault_after));
    lemma_reaches_self(made);
    lemma_reaches_extend(made, made, vault_after);
    lemma_reaches_keeps(made, vault_after);
    lemma_plan_first_event(e);
    assert(p.events.subrange(0, 0) =~= Seq::<EventView>::empty());
    assert(p.events[0] == e);
    assert(event_verified::<PV>(p.events.subrange(0, 0), p.events[0]));
    assert forall|label: Seq<char>| #[trigger] current_public_key(p.events, label) is Some implies exists|s: Secret|
        reports(vault_after, s, current_public_key(p.events, label)->0) by {
        if label != profile_update_label() {
            lemma_current_after_push(Seq::empty(), e, label);
            assert(Seq::<EventView>::empty().push(e) =~= p.events);
            assert(crate::history::last_key_event_index(Seq::<EventView>::empty(), label) is None);
            assert(current_public_key(Seq::<EventView>::empty(), label) is None);
            assert(current_public_key(p.events, label) is None);
        } else {
            assert(current_public_key(p.events, label)->0 == root);
            assert(reports(vault_after, sk, root));
        }
    }
}

/// A sound profile stays sound after one of its keys is created: the new key's event
/// checks out against the chain, and the vault holds the new key's secret.
pub proof fn lemma_key_creation_keeps_profile_sound<PV: ProfileVault>(
    vault: PV,
    before: ProfileView,
    after: ProfileView,
    vault_after: PV,
    label: Seq<char>,
    attributes: Seq<(Seq<char>, Seq<char>)>,
)
    requires
        requests_keep_well_formed::<PV>(),
        profile_sound(before, vault),
        key_created(vault, before, after, vault_after, label, attributes),
    ensures
        profile_sound(after, vault_after),
        after.identifier == before.identifier,
{
    let e = choose|e: EventView| #[trigger] key_creation_event(vault, before, after, vault_after, e, label, attributes);
    let root = current_public_key(before.events, profile_update_label())->0;
    let new_key = e.changes.data[0].change_type.key_change().public_key;
    let (rk, looked_up, sk) = choose|rk: Secret, looked_up: PV, sk: Secret|
        #![trigger secret_lookup(vault, root, Ok(rk), looked_up), key_event_made(looked_up, e, sk, one_signer(rk), vault_after)]
        secret_lookup(vault, root, Ok(rk), looked_up) && key_event_made(looked_up, e, sk, one_signer(rk), vault_after);
    lemma_secret_lookup_kept(vault, root, Ok(rk), looked_up);
    lemma_key_event_sound(looked_up, e, sk, one_signer(rk), seq![root], vault_after);
    assert(PV::verifies(e.signatures[1].data, root, e.identifier));
    assert(event_verified::<PV>(before.events, e));
    lemma_verified_after_push::<PV>(before, after, e);
    lemma_reaches_trans(vault, looked_up, vault_after);
    lemma_reaches_keeps(vault, vault_after);
    assert forall|l: Seq<char>| #[trigger] current_public_key(after.events, l) is Some implies exists|s: Secret|
        reports(vault_after, s, current_public_key(after.events, l)->0) by {
        assert(after.events == before.events.push(e));
        if l != label {
            lemma_current_after_push(before.events, e, l);
            assert(current_public_key(before.events, l) is Some);
            let s = choose|s: Secret| reports(vault, s, current_public_key(before.events, l)->0);
            assert(reports(vault_after, s, current_public_key(before.events, l)->0));
        } else {
            assert(current_public_key(after.events, l)->0 == new_key);
            assert(reports(vault_after, sk, new_key));
        }
    }
}

/// A sound profile stays sound after one of its keys, the root key among them, is
/// rotated: the rotation event checks out against the chain, the identifier still
/// names the first root key, and the vault holds the new key's secret.
pub proof fn lemma_key_rotation_keeps_profile_sound<PV: ProfileVault>(
    vault: PV,
    before: ProfileView,
    after: ProfileView,
    vault_after: PV,
    label: Seq<char>,
    attributes: Seq<(Seq<char>, Seq<char>)>,
)
    requires
        requests_keep_well_formed::<PV>(),
        profile_sound(before, vault),
        key_rotated(vault, before, after, vault_after, label, attributes),
    ensures
        profile_sound(after, vault_after),
        after.identifier == before.identifier,
{
    let e = choose|e: EventView| #[trigger] key_rotation_event(vault, before, after, vault_after, e, label, attributes);
    let root = current_public_key(before.events, profile_update_label())->0;
    let replaced = current_public_key(before.events, label)->0;
    let new_key = e.changes.data[0].change_type.key_change().public_key;
    let (rk, m1, prev, m2, sk) = choose|rk: Secret, m1: PV, prev: Secret, m2: PV, sk: Secret|
        #![trigger secret_lookup(vault, root, Ok(rk), m1), secret_lookup(m1, replaced, Ok(prev), m2), key_event_made(m2, e, sk, two_signers(prev, rk), vault_after)]
        secret_lookup(vault, root, Ok(rk), m1) && secret_lookup(m1, replaced, Ok(prev), m2) && key_event_made(
            m2,
            e,
            sk,
            two_signers(prev, rk),
            vault_after,
        );
    lemma_secret_lookup_kept(vault, root, Ok(rk), m1);
    lemma_secret_lookup_kept(m1, replaced, Ok(prev), m2);
    assert(reports(m2, rk, root));
    let others = two_signers(prev, rk);
    let keys = seq![replaced, root];
    assert(reports(m2, others[0], keys[0]));
    assert(reports(m2, others[1], keys[1]));
    lemma_key_event_sound(m2, e, sk, others, keys, vault_after);
    assert(PV::verifies(e.signatures[1].data, keys[0], e.identifier));
    assert(PV::verifies(e.signatures[2].data, keys[1], e.identifier));
    assert(event_verified::<PV>(before.events, e));
    lemma_verified_after_push::<PV>(before, after, e);
    lemma_reaches_trans(vault, m1, m2);
    lemma_reaches_trans(vault, m2, vault_after);
    lemma_reaches_keeps(vault, vault_after);
    assert forall|l: Seq<char>| #[trigger] current_public_key(after.events, l) is Some implies exists|s: Secret|
        reports(vault_after, s, current_public_key(after.events, l)->0) by {
        assert(after.events == before.events.push(e));
        if l != label {
            lemma_current_after_push(before.events, e, l);
            assert(current_public_key(before.events, l) is Some);
            let s = choose|s: Secret| reports(vault, s, current_public_key(before.events, l)->0);
            assert(reports(vault_after, s, current_public_key(before.events, l)->0));
        } else {
            assert(current_public_key(after.events, l)->0 == new_key);
            assert(reports(vault_after, sk, new_key));
        }
    }
}

/// A proof of possession that a profile generates with a well-formed vault holds a
/// signature of the channel state that is valid under the profile's current root key:
/// a profile that knows that root key accepts it.
pub proof fn lemma_generated_proof_is_accepted<PV: ProfileVault>(
    vault: PV,
    root: Seq<u8>,
    state: Seq<u8>,
    proof: Vec<u8>,
    after: PV,
)
    requires
        requests_keep_well_formed::<PV>(),
        well_formed(vault),
        proof_made(vault, root, state, Ok(proof), after),
    ensures
        proof_signature(proof@) matches Some(sig) && PV::verifies(sig, root, state),
        reaches(vault, after),
        well_formed(after),
{
    let (rk, mid) = choose|rk: Secret, mid: PV|
        #[trigger] secret_lookup(vault, root, Ok(rk), mid) && exists|sig: Vec<u8>|
            #[trigger] mid.sign_result(rk, state, Ok(sig), after) && proof@ == bare_data(sig@);
    lemma_secret_lookup_kept(vault, root, Ok(rk), mid);
    let sig = choose|sig: Vec<u8>| #[trigger] mid.sign_result(rk, state, Ok(sig), after) && proof@ == bare_data(sig@);
    assert(signed(mid, rk, state, sig@, after));
    lemma_signed(mid, rk, root, state, sig@, after);
    lemma_reaches_extend(vault, mid, after);
    lemma_reaches_keeps(vault, after);
    assert(sig@.len() == sig.len());
    crate::authentication::lemma_proof_round_trip(sig@, Seq::empty());
    assert(bare_data(sig@) + Seq::<u8>::empty() =~= bare_data(sig@));
}

/// A sound profile finds the secret of the current key of a label that it holds: the
/// lookup fails only where the vault refuses the request for the key's identifier, and
/// the profile stays sound.
pub proof fn lemma_sound_profile_finds_secret<PV: ProfileVault>(
    p: ProfileView,
    vault: PV,
    label: Seq<char>,
    r: Result<Secret, CoreError>,
    after: PV,
)
    requires
        requests_keep_well_formed::<PV>(),
        profile_sound(p, vault),
        current_public_key(p.events, label) is Some,
        secret_lookup(vault, current_public_key(p.events, label)->0, r, after),
    ensures
        r matches Err(e) ==> vault.compute_key_id_result(current_public_key(p.events, label)->0, Err(e), after),
        r matches Ok(s) ==> reports(after, s, current_public_key(p.events, label)->0),
        profile_sound(p, after),
{
    let pk = current_public_key(p.events, label)->0;
    let owned = choose|s: Secret| reports(vault, s, pk);
    lemma_secret_lookup_finds(vault, pk, owned, r, after);
    lemma_secret_lookup_kept(vault, pk, r, after);
    lemma_sound_after_requests(p, vault, after);
}

} // verus!
