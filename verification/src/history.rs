//! The change history of a profile: a chain of signed change events.
use vstd::prelude::*;

use crate::change::{
    SignatureView, ChangeTypeView, EventView, KeyAttributes, ProfileChange, ProfileChangeEvent,
    ProfileChangeType, ProfileChangeView, SignatureType, changes_list_view, events_view,
};
use crate::encoding::{encode_changes, encode_changes_binary};
use crate::error::{CoreError, OckamError};
use crate::identifiers::EventIdentifier;
use crate::vault::{ProfileVault, PublicKey};
use crate::vault_model::{lemma_reaches_extend, lemma_reaches_self, lemma_reaches_trans, reaches, vault_step};

verus! {

broadcast use vstd::string::to_string_from_display_ensures_for_str;

/// The label of the profile update key, the root key of a profile.
pub const PROFILE_UPDATE_LABEL: &'static str = "OCKAM_PUK";

pub open spec fn profile_update_label() -> Seq<char> {
    seq!['O', 'C', 'K', 'A', 'M', '_', 'P', 'U', 'K']
}

// ---------------------------------------------------------------------------
// The model: what the history's lookups and checks mean.
// ---------------------------------------------------------------------------

/// Whether a change is about the key with the given label.
pub open spec fn change_has_label(c: ProfileChangeView, label: Seq<char>) -> bool {
    c.change_type.key_change().label == label
}

/// The index of the last change in `data` about the key with the given label.
pub open spec fn last_change_index(data: Seq<ProfileChangeView>, label: Seq<char>) -> Option<int>
    decreases data.len(),
{
    if data.len() == 0 {
        None
    } else if change_has_label(data.last(), label) {
        Some(data.len() - 1)
    } else {
        last_change_index(data.drop_last(), label)
    }
}

/// Whether an event changes the key with the given label.
pub open spec fn event_has_key(e: EventView, label: Seq<char>) -> bool {
    last_change_index(e.changes.data, label) is Some
}

/// The index of the last event that changes the key with the given label.
pub open spec fn last_key_event_index(events: Seq<EventView>, label: Seq<char>) -> Option<int>
    decreases events.len(),
{
    if events.len() == 0 {
        None
    } else if event_has_key(events.last(), label) {
        Some(events.len() - 1)
    } else {
        last_key_event_index(events.drop_last(), label)
    }
}

/// The public key that an event records for the key with the given label.
pub open spec fn event_public_key(e: EventView, label: Seq<char>) -> Option<Seq<u8>> {
    match last_change_index(e.changes.data, label) {
        Some(i) => Some(e.changes.data[i].change_type.key_change().public_key),
        None => None,
    }
}

/// The current public key of the key with the given label: the one recorded by the
/// last event that changes it.
pub open spec fn current_public_key(events: Seq<EventView>, label: Seq<char>) -> Option<Seq<u8>> {
    match last_key_event_index(events, label) {
        Some(i) => event_public_key(events[i], label),
        None => None,
    }
}

/// The root public key: the key that the first change of the first event creates.
pub open spec fn first_root_public_key(events: Seq<EventView>) -> Result<Seq<u8>, OckamError> {
    if events.len() == 0 {
        Err(OckamError::VerifyFailed)
    } else if events[0].changes.data.len() == 0 {
        Err(OckamError::InvalidInternalState)
    } else {
        match events[0].changes.data[0].change_type {
            ChangeTypeView::CreateKey(k) => Ok(k.public_key),
            ChangeTypeView::RotateKey(_) => Err(OckamError::InvalidInternalState),
        }
    }
}

/// Whether `next` names `prev` as the event before it.
pub open spec fn linked(prev: EventView, next: EventView) -> bool {
    prev.identifier == next.changes.prev_event_id
}

/// The check of the `i`-th new event: it must name the event before it (the last
/// known event, for the first new one), and hold exactly one change.
pub open spec fn event_check(known: Seq<EventView>, new: Seq<EventView>, i: int) -> Result<
    (),
    OckamError,
> {
    let link_ok = if i == 0 {
        known.len() == 0 || linked(known.last(), new[0])
    } else {
        linked(new[i - 1], new[i])
    };
    if !link_ok {
        Err(OckamError::EventIdDoesntMatch)
    } else if new[i].changes.data.len() != 1 {
        Err(OckamError::InvalidInternalState)
    } else {
        Ok(())
    }
}

/// The checks of the first `n` new events, in order: the first failure decides.
pub open spec fn consistency_upto(known: Seq<EventView>, new: Seq<EventView>, n: nat) -> Result<
    (),
    OckamError,
>
    decreases n,
{
    if n == 0 {
        Ok(())
    } else {
        match consistency_upto(known, new, (n - 1) as nat) {
            Err(e) => Err(e),
            Ok(_) => event_check(known, new, n - 1),
        }
    }
}

/// Whether `new` events may follow the `known` ones.
pub open spec fn consistency(known: Seq<EventView>, new: Seq<EventView>) -> Result<(), OckamError> {
    consistency_upto(known, new, new.len())
}

/// How many signatures of each kind an event still needs.
pub ghost struct SigCounts {
    pub self_sign: int,
    pub prev_sign: int,
    pub root_sign: int,
}

pub open spec fn count_of(c: SigCounts, t: SignatureType) -> int {
    match t {
        SignatureType::SelfSign => c.self_sign,
        SignatureType::PrevSign => c.prev_sign,
        SignatureType::RootSign => c.root_sign,
    }
}

pub open spec fn count_down(c: SigCounts, t: SignatureType) -> SigCounts {
    match t {
        SignatureType::SelfSign => SigCounts { self_sign: c.self_sign - 1, ..c },
        SignatureType::PrevSign => SigCounts { prev_sign: c.prev_sign - 1, ..c },
        SignatureType::RootSign => SigCounts { root_sign: c.root_sign - 1, ..c },
    }
}

/// The signatures an event must carry: a new key is signed by itself and, unless it
/// is the first key of the profile, by the root key; a rotated key by itself, by the
/// key it replaces and by the root key.
pub open spec fn required_counts(existing: Seq<EventView>, event: EventView) -> Result<
    SigCounts,
    OckamError,
> {
    if event.changes.data.len() == 0 {
        Err(OckamError::InvalidInternalState)
    } else {
        match event.changes.data[0].change_type {
            ChangeTypeView::CreateKey(_) => Ok(
                SigCounts {
                    self_sign: 1,
                    prev_sign: 0,
                    root_sign: if existing.len() == 0 {
                        0
                    } else {
                        1
                    },
                },
            ),
            ChangeTypeView::RotateKey(_) => Ok(SigCounts { self_sign: 1, prev_sign: 1, root_sign: 1 }),
        }
    }
}

/// The public key that a signature of the given kind must verify under.
pub open spec fn signature_key(existing: Seq<EventView>, event: EventView, t: SignatureType) -> Result<
    Seq<u8>,
    OckamError,
> {
    match t {
        SignatureType::RootSign => if existing.len() == 0 {
            Err(OckamError::VerifyFailed)
        } else {
            match current_public_key(existing, profile_update_label()) {
                Some(k) => Ok(k),
                None => Err(OckamError::InvalidInternalState),
            }
        },
        SignatureType::SelfSign => Ok(event.changes.data[0].change_type.key_change().public_key),
        SignatureType::PrevSign => match event.changes.data[0].change_type {
            ChangeTypeView::CreateKey(_) => Err(OckamError::VerifyFailed),
            ChangeTypeView::RotateKey(k) => match current_public_key(existing, k.label) {
                Some(pk) => Ok(pk),
                None => Err(OckamError::InvalidInternalState),
            },
        },
    }
}

/// The keys for the first `n` signatures, with the counts that remain after them.
pub open spec fn plan_upto(existing: Seq<EventView>, event: EventView, n: nat) -> Result<
    (SigCounts, Seq<Seq<u8>>),
    OckamError,
>
    decreases n,
{
    if n == 0 {
        match required_counts(existing, event) {
            Err(e) => Err(e),
            Ok(c) => Ok((c, Seq::empty())),
        }
    } else {
        match plan_upto(existing, event, (n - 1) as nat) {
            Err(e) => Err(e),
            Ok(p) => {
                let t = event.signatures[n - 1].stype;
                match signature_key(existing, event, t) {
                    Err(e) => Err(e),
                    Ok(k) => if count_of(p.0, t) <= 0 {
                        Err(OckamError::VerifyFailed)
                    } else {
                        Ok((count_down(p.0, t), p.1.push(k)))
                    },
                }
            },
        }
    }
}

/// For each signature of `event`, the public key it must verify under; an error when
/// a signature is of a kind the event does not call for, or one that it calls for is
/// missing.
pub open spec fn signature_plan(existing: Seq<EventView>, event: EventView) -> Result<
    Seq<Seq<u8>>,
    OckamError,
> {
    match plan_upto(existing, event, event.signatures.len()) {
        Err(e) => Err(e),
        Ok(p) => if p.0.self_sign == 0 && p.0.prev_sign == 0 && p.0.root_sign == 0 {
            Ok(p.1)
        } else {
            Err(OckamError::VerifyFailed)
        },
    }
}

// ---------------------------------------------------------------------------
// Lemmas
// ---------------------------------------------------------------------------

/// The checks of the first `n` events do not depend on events after them.
pub proof fn lemma_consistency_prefix(known: Seq<EventView>, new: Seq<EventView>, more: Seq<EventView>, n: nat)
    requires
        n <= new.len(),
    ensures
        consistency_upto(known, new + more, n) == consistency_upto(known, new, n),
    decreases n,
{
    if n > 0 {
        lemma_consistency_prefix(known, new, more, (n - 1) as nat);
        assert((new + more)[n - 1] == new[n - 1]);
        if n >= 2 {
            assert((new + more)[n - 2] == new[n - 2]);
        }
    }
}

// ---------------------------------------------------------------------------
// The history
// ---------------------------------------------------------------------------

/// The chain of change events of a profile.
#[derive(Debug)]
pub struct ProfileChangeHistory {
    pub events: Vec<ProfileChangeEvent>,
}

impl View for ProfileChangeHistory {
    type V = Seq<EventView>;

    open spec fn view(&self) -> Seq<EventView> {
        events_view(self.events@)
    }
}

impl ProfileChangeHistory {
    pub fn new(change_events: Vec<ProfileChangeEvent>) -> (h: ProfileChangeHistory)
        ensures
            h@ == events_view(change_events@),
    {
        ProfileChangeHistory { events: change_events }
    }

    /// The events, oldest first.
    pub fn as_ref(&self) -> (s: &[ProfileChangeEvent])
        ensures
            events_view(s@) == self@,
    {
        self.events.as_slice()
    }

    /// Append an event.
    pub fn push_event(&mut self, event: ProfileChangeEvent)
        ensures
            final(self)@ == old(self)@.push(event@),
    {
        self.events.push(event);
        assert(events_view(self.events@) =~= events_view(old(self).events@).push(event@));
    }

    /// Check that `new_events` may follow `known_events`: each names the event before
    /// it, and each holds exactly one change.
    pub fn check_consistency(
        known_events: &[ProfileChangeEvent],
        new_events: &[ProfileChangeEvent],
    ) -> (r: Result<(), OckamError>)
        ensures
            r == consistency(events_view(known_events@), events_view(new_events@)),
    {
        let ghost known = events_view(known_events@);
        let ghost new = events_view(new_events@);
        let mut i: usize = 0;
        while i < new_events.len()
            invariant
                i <= new_events@.len(),
                known == events_view(known_events@),
                new == events_view(new_events@),
                consistency_upto(known, new, i as nat) is Ok,
            decreases new_events@.len() - i,
        {
            let event = &new_events[i];
            let link_ok = if i == 0 {
                if known_events.len() == 0 {
                    true
                } else {
                    known_events[known_events.len() - 1].identifier().same_as(
                        &event.changes().prev_event_id,
                    )
                }
            } else {
                new_events[i - 1].identifier().same_as(&event.changes().prev_event_id)
            };
            if !link_ok {
                assert(consistency_upto(known, new, (i + 1) as nat) == Err::<(), OckamError>(
                    OckamError::EventIdDoesntMatch,
                ));
                proof { lemma_first_failure_decides(known, new, (i + 1) as nat); }
                return Err(OckamError::EventIdDoesntMatch);
            }
            if event.changes().data.len() != 1 {
                assert(consistency_upto(known, new, (i + 1) as nat) == Err::<(), OckamError>(
                    OckamError::InvalidInternalState,
                ));
                proof { lemma_first_failure_decides(known, new, (i + 1) as nat); }
                return Err(OckamError::InvalidInternalState);
            }
            i = i + 1;
        }
        Ok(())
    }
}

/// The key attributes of the profile update key.
pub fn profile_update_key_attributes() -> (a: KeyAttributes)
    ensures
        a@ == profile_update_label(),
{
    let label = PROFILE_UPDATE_LABEL.to_string();
    proof {
        reveal_strlit("OCKAM_PUK");
        assert(label@ =~= profile_update_label());
    }
    KeyAttributes::new(label)
}

impl ProfileChangeHistory {
    /// The last change in `event` about the key with the given attributes.
    pub fn find_key_change_in_event<'a>(
        event: &'a ProfileChangeEvent,
        key_attributes: &KeyAttributes,
    ) -> (r: Option<&'a ProfileChange>)
        ensures
            match last_change_index(event@.changes.data, key_attributes@) {
                Some(i) => r matches Some(c) && c@ == event@.changes.data[i],
                None => r is None,
            },
    {
        let data = &event.changes.data;
        let ghost dv = event@.changes.data;
        let mut i: usize = data.len();
        assert(dv == changes_list_view(data@));
        assert(dv.subrange(0, dv.len() as int) =~= dv);
        while i > 0
            invariant
                i <= data@.len(),
                dv == changes_list_view(data@),
                dv == event@.changes.data,
                last_change_index(dv, key_attributes@) == last_change_index(
                    dv.subrange(0, i as int),
                    key_attributes@,
                ),
            decreases i,
        {
            let c = &data[i - 1];
            assert(c@ == dv[i - 1]);
            let ghost sub = dv.subrange(0, i as int);
            assert(sub.last() == dv[i - 1]);
            assert(sub.drop_last() =~= dv.subrange(0, i - 1));
            if *c.key_label() == key_attributes.label {
                assert(change_has_label(sub.last(), key_attributes@));
                assert(last_change_index(sub, key_attributes@) == Some((i - 1) as int));
                return Some(c);
            }
            i = i - 1;
        }
        assert(dv.subrange(0, 0) =~= Seq::<ProfileChangeView>::empty());
        None
    }

    /// The public key that a change records.
    pub fn get_change_public_key(change: &ProfileChange) -> (r: Result<PublicKey, OckamError>)
        ensures
            r matches Ok(k) && k@ == change@.change_type.key_change().public_key,
    {
        Ok(change.public_key().duplicate())
    }

    /// The last event among `existing_events` that changes the key with the given attributes.
    pub fn find_last_key_event<'a>(
        existing_events: &'a [ProfileChangeEvent],
        key_attributes: &KeyAttributes,
    ) -> (r: Result<&'a ProfileChangeEvent, OckamError>)
        ensures
            match last_key_event_index(events_view(existing_events@), key_attributes@) {
                Some(i) => r matches Ok(e) && e@ == events_view(existing_events@)[i],
                None => r == Err::<&ProfileChangeEvent, OckamError>(OckamError::InvalidInternalState),
            },
    {
        let ghost ev = events_view(existing_events@);
        let mut i: usize = existing_events.len();
        assert(ev.subrange(0, ev.len() as int) =~= ev);
        while i > 0
            invariant
                i <= existing_events@.len(),
                ev == events_view(existing_events@),
                last_key_event_index(ev, key_attributes@) == last_key_event_index(
                    ev.subrange(0, i as int),
                    key_attributes@,
                ),
            decreases i,
        {
            let e = &existing_events[i - 1];
            let ghost sub = ev.subrange(0, i as int);
            assert(sub.last() == ev[i - 1]);
            assert(sub.drop_last() =~= ev.subrange(0, i - 1));
            if Self::find_key_change_in_event(e, key_attributes).is_some() {
                return Ok(e);
            }
            i = i - 1;
        }
        assert(ev.subrange(0, 0) =~= Seq::<EventView>::empty());
        Err(OckamError::InvalidInternalState)
    }

    /// The public key that `event` records for the key with the given attributes.
    pub fn get_public_key_from_event(
        key_attributes: &KeyAttributes,
        event: &ProfileChangeEvent,
    ) -> (r: Result<PublicKey, OckamError>)
        ensures
            match event_public_key(event@, key_attributes@) {
                Some(k) => r matches Ok(pk) && pk@ == k,
                None => r == Err::<PublicKey, OckamError>(OckamError::InvalidInternalState),
            },
    {
        match Self::find_key_change_in_event(event, key_attributes) {
            Some(change) => Self::get_change_public_key(change),
            None => Err(OckamError::InvalidInternalState),
        }
    }

    /// The current public key of the key with the given attributes among `existing_events`.
    pub fn get_current_public_key(
        existing_events: &[ProfileChangeEvent],
        key_attributes: &KeyAttributes,
    ) -> (r: Result<PublicKey, OckamError>)
        ensures
            match current_public_key(events_view(existing_events@), key_attributes@) {
                Some(k) => r matches Ok(pk) && pk@ == k,
                None => r == Err::<PublicKey, OckamError>(OckamError::InvalidInternalState),
            },
    {
        let event = Self::find_last_key_event(existing_events, key_attributes)?;
        Self::get_public_key_from_event(key_attributes, event)
    }

    /// The current public key of the profile update key among `existing_events`.
    pub fn get_current_profile_update_public_key(existing_events: &[ProfileChangeEvent]) -> (r:
        Result<PublicKey, OckamError>)
        ensures
            match current_public_key(events_view(existing_events@), profile_update_label()) {
                Some(k) => r matches Ok(pk) && pk@ == k,
                None => r == Err::<PublicKey, OckamError>(OckamError::InvalidInternalState),
            },
    {
        let root_key_attributes = profile_update_key_attributes();
        Self::get_current_public_key(existing_events, &root_key_attributes)
    }

    /// The public key that the first change of the first event creates.
    pub fn get_first_root_public_key(&self) -> (r: Result<PublicKey, OckamError>)
        ensures
            match first_root_public_key(self@) {
                Ok(k) => r matches Ok(pk) && pk@ == k,
                Err(e) => r == Err::<PublicKey, OckamError>(e),
            },
    {
        if self.events.len() == 0 {
            return Err(OckamError::VerifyFailed);
        }
        let root_event = &self.events[0];
        assert(root_event@ == self@[0]);
        if root_event.changes.data.len() == 0 {
            return Err(OckamError::InvalidInternalState);
        }
        let root_change = &root_event.changes.data[0];
        assert(root_change@ == self@[0].changes.data[0]);
        match &root_change.change_type {
            ProfileChangeType::CreateKey(k) => Ok(k.public_key.duplicate()),
            ProfileChangeType::RotateKey(_) => Err(OckamError::InvalidInternalState),
        }
    }

    /// The current public key of the key with the given attributes.
    pub fn get_public_key(&self, key_attributes: &KeyAttributes) -> (r: Result<PublicKey, OckamError>)
        ensures
            match current_public_key(self@, key_attributes@) {
                Some(k) => r matches Ok(pk) && pk@ == k,
                None => r == Err::<PublicKey, OckamError>(OckamError::InvalidInternalState),
            },
    {
        Self::get_current_public_key(self.as_ref(), key_attributes)
    }

    /// The identifier of the last event.
    pub fn get_last_event_id(&self) -> (r: Result<EventIdentifier, OckamError>)
        ensures
            self@.len() == 0 ==> r == Err::<EventIdentifier, OckamError>(OckamError::InvalidInternalState),
            self@.len() > 0 ==> (r matches Ok(id) && id@ == self@.last().identifier),
    {
        if self.events.len() == 0 {
            return Err(OckamError::InvalidInternalState);
        }
        let last = &self.events[self.events.len() - 1];
        assert(last@ == self@.last());
        Ok(last.identifier)
    }
}

/// The public keys of a list, as sequences of bytes.
pub open spec fn keys_view(s: Seq<PublicKey>) -> Seq<Seq<u8>> {
    s.map_values(|k: PublicKey| k@)
}

/// Whether every event carries the signatures that its place in the chain calls for.
pub open spec fn signatures_well_formed(events: Seq<EventView>) -> bool {
    forall|i: int| 0 <= i < events.len() ==> (#[trigger] signature_plan(events.subrange(0, i), events[i])) is Ok
}

/// Whether an event checks out under the hashing and signature verification of vault
/// type `V`, given the events before it: its identifier is the digest of its encoded
/// changes, and each of its signatures is valid, for that identifier, under the key
/// that its place in the chain assigns to it.
pub open spec fn event_verified<V: ProfileVault>(existing: Seq<EventView>, e: EventView) -> bool {
    &&& e.identifier == V::sha256_spec(encode_changes(e.changes))
    &&& signature_plan(existing, e) matches Ok(keys) && forall|i: int|
        0 <= i < e.signatures.len() ==> #[trigger] V::verifies(
            e.signatures[i].data,
            keys[i],
            e.identifier,
        )
}

/// Whether every event of a chain checks out against the events before it.
pub open spec fn chain_verified<V: ProfileVault>(events: Seq<EventView>) -> bool {
    forall|i: int| 0 <= i < events.len() ==> #[trigger] event_verified::<V>(events.subrange(0, i), events[i])
}

/// Whether every event of a chain from position `start` on checks out against the
/// events before it.
pub open spec fn chain_verified_from<V: ProfileVault>(events: Seq<EventView>, start: int) -> bool {
    forall|i: int| start <= i < events.len() ==> #[trigger] event_verified::<V>(events.subrange(0, i), events[i])
}

/// Whether some vault of type `V`, in some state, answers the request to hash the
/// changes of one of `events` with the error `e`.
pub open spec fn may_refuse_hash<V: ProfileVault>(events: Seq<EventView>, e: CoreError) -> bool {
    exists|i: int, v: V, after: V|
        0 <= i < events.len() && #[trigger] v.sha256_result(encode_changes(events[i].changes), Err(e), after)
}

/// A chain that checks out carries the signatures that each place calls for.
pub proof fn lemma_verified_chain_well_formed<V: ProfileVault>(events: Seq<EventView>)
    requires
        chain_verified::<V>(events),
    ensures
        signatures_well_formed(events),
{
    assert forall|i: int| 0 <= i < events.len() implies (#[trigger] signature_plan(events.subrange(0, i), events[i])) is Ok by {
        assert(event_verified::<V>(events.subrange(0, i), events[i]));
    }
}

/// Once planning a signature fails, the plan is that failure.
pub proof fn lemma_plan_failure_decides(existing: Seq<EventView>, event: EventView, n: nat)
    requires
        n <= event.signatures.len(),
        plan_upto(existing, event, n) is Err,
    ensures
        signature_plan(existing, event) == (match plan_upto(existing, event, n) {
            Err(e) => Err::<Seq<Seq<u8>>, OckamError>(e),
            Ok(_) => Err::<Seq<Seq<u8>>, OckamError>(OckamError::VerifyFailed),
        }),
    decreases event.signatures.len() - n,
{
    if n < event.signatures.len() {
        assert(plan_upto(existing, event, n + 1) == plan_upto(existing, event, n));
        lemma_plan_failure_decides(existing, event, n + 1);
    }
}

impl ProfileChangeHistory {
    /// Check that a digest of an event's changes is the event's identifier.
    pub fn check_event_id(event: &ProfileChangeEvent, digest: [u8; 32]) -> (r: Result<(), OckamError>)
        ensures
            r == (if digest@ == event@.identifier {
                Ok::<(), OckamError>(())
            } else {
                Err(OckamError::EventIdDoesntMatch)
            }),
    {
        let event_id = EventIdentifier::from_hash(digest);
        if event_id.same_as(event.identifier()) {
            Ok(())
        } else {
            Err(OckamError::EventIdDoesntMatch)
        }
    }

    /// For each signature of `event`, the public key it must verify under, given the
    /// events before it.
    pub fn signature_keys(existing_events: &[ProfileChangeEvent], event: &ProfileChangeEvent) -> (r:
        Result<Vec<PublicKey>, OckamError>)
        ensures
            match signature_plan(events_view(existing_events@), event@) {
                Ok(ks) => r matches Ok(v) && keys_view(v@) == ks,
                Err(e) => r == Err::<Vec<PublicKey>, OckamError>(e),
            },
            r matches Ok(v) ==> v@.len() == event@.signatures.len(),
    {
        let ghost existing = events_view(existing_events@);
        let ghost ev = event@;
        if event.changes.data.len() == 0 {
            assert(plan_upto(existing, ev, 0) == Err::<(SigCounts, Seq<Seq<u8>>), OckamError>(
                OckamError::InvalidInternalState,
            ));
            proof { lemma_plan_failure_decides(existing, ev, 0); }
            return Err(OckamError::InvalidInternalState);
        }
        let first = &event.changes.data[0];
        assert(first@ == ev.changes.data[0]);
        let (mut self_sign, mut prev_sign, mut root_sign): (u8, u8, u8) = match &first.change_type {
            ProfileChangeType::CreateKey(_) => (
                1,
                0,
                if existing_events.len() == 0 {
                    0
                } else {
                    1
                },
            ),
            ProfileChangeType::RotateKey(_) => (1, 1, 1),
        };
        let mut keys: Vec<PublicKey> = Vec::new();
        assert(keys_view(keys@) =~= Seq::<Seq<u8>>::empty());
        let mut i: usize = 0;
        while i < event.signatures.len()
            invariant
                i <= event.signatures@.len(),
                existing == events_view(existing_events@),
                ev == event@,
                ev.changes.data.len() > 0,
                first@ == ev.changes.data[0],
                keys@.len() == i,
                plan_upto(existing, ev, i as nat) == Ok::<(SigCounts, Seq<Seq<u8>>), OckamError>(
                    (
                        SigCounts {
                            self_sign: self_sign as int,
                            prev_sign: prev_sign as int,
                            root_sign: root_sign as int,
                        },
                        keys_view(keys@),
                    ),
                ),
            decreases event.signatures@.len() - i,
        {
            let t = event.signatures[i].stype;
            assert(t == ev.signatures[i as int].stype);
            let key = match t {
                SignatureType::RootSign => {
                    if existing_events.len() == 0 {
                        proof { lemma_plan_failure_decides(existing, ev, (i + 1) as nat); }
                        return Err(OckamError::VerifyFailed);
                    }
                    match Self::get_current_profile_update_public_key(existing_events) {
                        Ok(k) => k,
                        Err(e) => {
                            proof { lemma_plan_failure_decides(existing, ev, (i + 1) as nat); }
                            return Err(e);
                        },
                    }
                },
                SignatureType::SelfSign => first.public_key().duplicate(),
                SignatureType::PrevSign => match &first.change_type {
                    ProfileChangeType::CreateKey(_) => {
                        proof { lemma_plan_failure_decides(existing, ev, (i + 1) as nat); }
                        return Err(OckamError::VerifyFailed);
                    },
                    ProfileChangeType::RotateKey(k) => {
                        match Self::get_current_public_key(existing_events, &k.key_attributes) {
                            Ok(pk) => pk,
                            Err(e) => {
                                proof { lemma_plan_failure_decides(existing, ev, (i + 1) as nat); }
                                return Err(e);
                            },
                        }
                    },
                },
            };
            assert(signature_key(existing, ev, t) == Ok::<Seq<u8>, OckamError>(key@));
            let counter = match t {
                SignatureType::SelfSign => self_sign,
                SignatureType::PrevSign => prev_sign,
                SignatureType::RootSign => root_sign,
            };
            if counter == 0 {
                proof { lemma_plan_failure_decides(existing, ev, (i + 1) as nat); }
                return Err(OckamError::VerifyFailed);
            }
            match t {
                SignatureType::SelfSign => { self_sign = self_sign - 1; },
                SignatureType::PrevSign => { prev_sign = prev_sign - 1; },
                SignatureType::RootSign => { root_sign = root_sign - 1; },
            }
            let ghost old_keys = keys@;
            keys.push(key);
            assert(keys_view(keys@) =~= keys_view(old_keys).push(key@));
            i = i + 1;
        }
        if self_sign == 0 && prev_sign == 0 && root_sign == 0 {
            Ok(keys)
        } else {
            Err(OckamError::VerifyFailed)
        }
    }

    /// Verify one event against the events before it: its identifier must be the
    /// digest of its changes, and it must carry exactly the signatures that its kind
    /// calls for, each valid under the key that should have made it. The kinds of all
    /// signatures are checked before any of them is handed to the vault. The events
    /// before it are assumed verified, and the order of events is not checked here.
    /// Where the event checks out, the only possible failure is the vault's refusal
    /// to hash its changes.
    pub fn verify_event<V: ProfileVault>(
        existing_events: &[ProfileChangeEvent],
        new_change_event: &ProfileChangeEvent,
        vault: &mut V,
    ) -> (r: Result<(), CoreError>)
        ensures
            r is Ok ==> event_verified::<V>(events_view(existing_events@), new_change_event@),
            r matches Err(e) ==> (event_verified::<V>(events_view(existing_events@), new_change_event@)
                ==> old(vault).sha256_result(encode_changes(new_change_event@.changes), Err(e), *final(vault))),
            reaches(*old(vault), *final(vault)),
    {
        let ghost existing = events_view(existing_events@);
        let ghost ev = new_change_event@;
        let ghost start = *vault;
        proof { lemma_reaches_self(start); }
        let changes_binary = match encode_changes_binary(new_change_event.changes()) {
            Ok(b) => b,
            Err(e) => return Err(CoreError::Ockam(e)),
        };
        let digest = vault.sha256(changes_binary.as_slice());
        proof {
            assert(vault_step(start, *vault));
            lemma_reaches_extend(start, start, *vault);
        }
        let digest = digest?;
        match Self::check_event_id(new_change_event, digest) {
            Ok(()) => {},
            Err(e) => return Err(CoreError::Ockam(e)),
        }
        let keys = match Self::signature_keys(existing_events, new_change_event) {
            Ok(k) => k,
            Err(e) => return Err(CoreError::Ockam(e)),
        };
        let ghost ks = keys_view(keys@);
        let mut i: usize = 0;
        while i < new_change_event.signatures.len()
            invariant
                i <= new_change_event.signatures@.len(),
                keys@.len() == new_change_event.signatures@.len(),
                ev == new_change_event@,
                existing == events_view(existing_events@),
                ev.identifier == V::sha256_spec(encode_changes(ev.changes)),
                signature_plan(existing, ev) == Ok::<Seq<Seq<u8>>, OckamError>(ks),
                ks == keys_view(keys@),
                forall|j: int| 0 <= j < i ==> #[trigger] V::verifies(ev.signatures[j].data, ks[j], ev.identifier),
                reaches(start, *vault),
                start == *old(vault),
            decreases new_change_event.signatures@.len() - i,
        {
            assert(new_change_event.signatures[i as int]@ == ev.signatures[i as int]);
            assert(keys@[i as int]@ == ks[i as int]);
            let ghost before = *vault;
            let verified = vault.verify(
                new_change_event.signatures[i].data.as_slice(),
                keys[i].as_slice(),
                new_change_event.identifier().as_slice(),
            );
            proof {
                assert(vault_step(before, *vault));
                lemma_reaches_extend(start, before, *vault);
            }
            match verified {
                Ok(()) => {},
                Err(e) => {
                    proof {
                        if event_verified::<V>(existing, ev) {
                            assert(ev.signatures.len() == new_change_event.signatures@.len());
                            let planned = signature_plan(existing, ev)->Ok_0;
                            assert(forall|j: int| 0 <= j < ev.signatures.len() ==> #[trigger] V::verifies(ev.signatures[j].data, planned[j], ev.identifier));
                            assert(planned == ks);
                            assert(V::verifies(ev.signatures[i as int].data, ks[i as int], ev.identifier));
                        }
                    }
                    return Err(e);
                },
            }
            i = i + 1;
        }
        Ok(())
    }

    /// Verify every event of the history against the events before it. A history
    /// without events asks nothing of the vault and verifies; a history that checks
    /// out fails only where the vault refuses to hash an event's changes.
    pub fn verify_all_existing_events<V: ProfileVault>(&self, vault: &mut V) -> (r: Result<
        (),
        CoreError,
    >)
        ensures
            r is Ok ==> chain_verified::<V>(self@) && signatures_well_formed(self@),
            self@.len() == 0 ==> r is Ok,
            r matches Err(e) ==> (chain_verified::<V>(self@) ==> may_refuse_hash::<V>(self@, e)),
            reaches(*old(vault), *final(vault)),
    {
        let ghost start = *vault;
        proof { lemma_reaches_self(start); }
        let mut i: usize = 0;
        while i < self.events.len()
            invariant
                i <= self@.len(),
                reaches(start, *vault),
                start == *old(vault),
                forall|j: int| 0 <= j < i ==> #[trigger] event_verified::<V>(self@.subrange(0, j), self@[j]),
            decreases self@.len() - i,
        {
            let existing = slice_prefix(self.events.as_slice(), i);
            assert(events_view(existing@) =~= self@.subrange(0, i as int));
            assert(self.events@[i as int]@ == self@[i as int]);
            let ghost before = *vault;
            let verified = Self::verify_event(existing, &self.events[i], vault);
            proof { lemma_reaches_trans(start, before, *vault); }
            match verified {
                Ok(()) => {},
                Err(e) => {
                    proof {
                        if chain_verified::<V>(self@) {
                            assert(event_verified::<V>(self@.subrange(0, i as int), self@[i as int]));
                            assert(before.sha256_result(encode_changes(self@[i as int].changes), Err(e), *vault));
                        }
                    }
                    return Err(e);
                },
            }
            i = i + 1;
        }
        proof { lemma_verified_chain_well_formed::<V>(self@); }
        Ok(())
    }
}

/// The first `n` elements of a slice.
pub fn slice_prefix<T>(s: &[T], n: usize) -> (r: &[T])
    requires
        n <= s@.len(),
    ensures
        r@ == s@.subrange(0, n as int),
{
    vstd::slice::slice_subrange(s, 0, n)
}

/// A single event that names the last known event and holds one change may follow
/// the known events.
pub proof fn lemma_single_event_consistency(known: Seq<EventView>, e: EventView)
    requires
        known.len() > 0,
        known.last().identifier == e.changes.prev_event_id,
        e.changes.data.len() == 1,
    ensures
        consistency(known, seq![e]) is Ok,
{
    assert(consistency_upto(known, seq![e], 0) is Ok);
    assert(seq![e][0] == e);
}

/// Appending events that may follow a consistent chain keeps it consistent.
pub proof fn lemma_consistency_append(history: Seq<EventView>, new: Seq<EventView>)
    requires
        consistency(Seq::empty(), history) is Ok,
        consistency(history, new) is Ok,
    ensures
        consistency(Seq::empty(), history + new) is Ok,
{
    lemma_consistency_append_upto(history, new, new.len());
}

proof fn lemma_consistency_append_upto(history: Seq<EventView>, new: Seq<EventView>, n: nat)
    requires
        n <= new.len(),
        consistency(Seq::empty(), history) is Ok,
        consistency(history, new) is Ok,
    ensures
        consistency_upto(Seq::empty(), history + new, history.len() + n) is Ok,
    decreases n,
{
    let all = history + new;
    if n == 0 {
        lemma_consistency_prefix(Seq::empty(), history, new, history.len());
    } else {
        lemma_consistency_append_upto(history, new, (n - 1) as nat);
        lemma_consistency_ok_prefix(history, new, n);
        let i = history.len() + n - 1;
        assert(all[i] == new[n - 1]);
        if n >= 2 {
            assert(all[i - 1] == new[n - 2]);
        } else if history.len() > 0 {
            assert(all[i - 1] == history.last());
        }
    }
}

/// A consistent chain, split in two, has a second part that may follow the first.
pub proof fn lemma_consistency_split(first: Seq<EventView>, rest: Seq<EventView>)
    requires
        consistency(Seq::empty(), first + rest) is Ok,
    ensures
        consistency(first, rest) is Ok,
{
    lemma_consistency_split_upto(first, rest, rest.len());
}

proof fn lemma_consistency_split_upto(first: Seq<EventView>, rest: Seq<EventView>, n: nat)
    requires
        n <= rest.len(),
        consistency(Seq::empty(), first + rest) is Ok,
    ensures
        consistency_upto(first, rest, n) is Ok,
    decreases n,
{
    if n > 0 {
        lemma_consistency_split_upto(first, rest, (n - 1) as nat);
        let all = first + rest;
        let i = first.len() + n - 1;
        lemma_consistency_ok_prefix(Seq::empty(), all, (i + 1) as nat);
        assert(all[i] == rest[n - 1]);
        if n >= 2 {
            assert(all[i - 1] == rest[n - 2]);
        } else if first.len() > 0 {
            assert(all[i - 1] == first.last());
        }
    }
}

/// When all checks pass, each of them passes.
proof fn lemma_consistency_ok_prefix(known: Seq<EventView>, new: Seq<EventView>, n: nat)
    requires
        1 <= n <= new.len(),
        consistency(known, new) is Ok,
    ensures
        consistency_upto(known, new, n) is Ok,
        event_check(known, new, n - 1) is Ok,
    decreases new.len() - n,
{
    if n < new.len() {
        lemma_consistency_ok_prefix(known, new, n + 1);
    }
}

/// The structure of the signatures of the events of a chain, checked one event
/// after the other, carries over to a chain extended by one event.
pub proof fn lemma_signatures_append(history: Seq<EventView>, e: EventView)
    requires
        signatures_well_formed(history),
        signature_plan(history, e) is Ok,
    ensures
        signatures_well_formed(history.push(e)),
{
    let h2 = history.push(e);
    assert forall|i: int| 0 <= i < h2.len() implies (#[trigger] signature_plan(h2.subrange(0, i), h2[i])) is Ok by {
        if i < history.len() {
            assert(h2.subrange(0, i) =~= history.subrange(0, i));
            assert(signature_plan(history.subrange(0, i), history[i]) is Ok);
        } else {
            assert(h2.subrange(0, i) =~= history);
        }
    }
}

/// An event that creates a key, signed by that key and by the current root key,
/// carries exactly the signatures that its place calls for.
pub proof fn lemma_plan_created_key_event(existing: Seq<EventView>, e: EventView)
    requires
        existing.len() > 0,
        e.changes.data.len() > 0,
        e.changes.data[0].change_type is CreateKey,
        current_public_key(existing, profile_update_label()) is Some,
        e.signatures.len() == 2,
        e.signatures[0].stype == SignatureType::SelfSign,
        e.signatures[1].stype == SignatureType::RootSign,
    ensures
        signature_plan(existing, e) == Ok::<Seq<Seq<u8>>, OckamError>(
            seq![
                e.changes.data[0].change_type.key_change().public_key,
                current_public_key(existing, profile_update_label())->0,
            ],
        ),
{
    let root = current_public_key(existing, profile_update_label())->0;
    let pk = e.changes.data[0].change_type.key_change().public_key;
    let c0 = SigCounts { self_sign: 1, prev_sign: 0, root_sign: 1 };
    assert(plan_upto(existing, e, 0) == Ok::<(SigCounts, Seq<Seq<u8>>), OckamError>((c0, Seq::empty())));
    let c1 = SigCounts { self_sign: 0, prev_sign: 0, root_sign: 1 };
    assert(plan_upto(existing, e, 1) == Ok::<(SigCounts, Seq<Seq<u8>>), OckamError>((c1, seq![pk])));
    let c2 = SigCounts { self_sign: 0, prev_sign: 0, root_sign: 0 };
    assert(seq![pk].push(root) =~= seq![pk, root]);
    assert(plan_upto(existing, e, 2) == Ok::<(SigCounts, Seq<Seq<u8>>), OckamError>((c2, seq![pk, root])));
}

/// The first event of a profile, which creates its root key signed by that key alone,
/// carries exactly the signatures that its place calls for.
pub proof fn lemma_plan_first_event(e: EventView)
    requires
        e.changes.data.len() > 0,
        e.changes.data[0].change_type is CreateKey,
        e.signatures.len() == 1,
        e.signatures[0].stype == SignatureType::SelfSign,
    ensures
        signature_plan(Seq::empty(), e) == Ok::<Seq<Seq<u8>>, OckamError>(
            seq![e.changes.data[0].change_type.key_change().public_key],
        ),
{
    let pk = e.changes.data[0].change_type.key_change().public_key;
    let c0 = SigCounts { self_sign: 1, prev_sign: 0, root_sign: 0 };
    assert(plan_upto(Seq::empty(), e, 0) == Ok::<(SigCounts, Seq<Seq<u8>>), OckamError>((c0, Seq::empty())));
    let c1 = SigCounts { self_sign: 0, prev_sign: 0, root_sign: 0 };
    assert(Seq::<Seq<u8>>::empty().push(pk) =~= seq![pk]);
    assert(plan_upto(Seq::empty(), e, 1) == Ok::<(SigCounts, Seq<Seq<u8>>), OckamError>((c1, seq![pk])));
}

/// An event that rotates a key, signed by the new key, by the key it replaces and by
/// the current root key, carries exactly the signatures that its place calls for.
pub proof fn lemma_plan_rotated_key_event(existing: Seq<EventView>, e: EventView)
    requires
        existing.len() > 0,
        e.changes.data.len() > 0,
        e.changes.data[0].change_type is RotateKey,
        current_public_key(existing, profile_update_label()) is Some,
        current_public_key(existing, e.changes.data[0].change_type.key_change().label) is Some,
        e.signatures.len() == 3,
        e.signatures[0].stype == SignatureType::SelfSign,
        e.signatures[1].stype == SignatureType::PrevSign,
        e.signatures[2].stype == SignatureType::RootSign,
    ensures
        signature_plan(existing, e) == Ok::<Seq<Seq<u8>>, OckamError>(
            seq![
                e.changes.data[0].change_type.key_change().public_key,
                current_public_key(existing, e.changes.data[0].change_type.key_change().label)->0,
                current_public_key(existing, profile_update_label())->0,
            ],
        ),
{
    let k = e.changes.data[0].change_type.key_change();
    let root = current_public_key(existing, profile_update_label())->0;
    let prev = current_public_key(existing, k.label)->0;
    let pk = k.public_key;
    let c0 = SigCounts { self_sign: 1, prev_sign: 1, root_sign: 1 };
    assert(plan_upto(existing, e, 0) == Ok::<(SigCounts, Seq<Seq<u8>>), OckamError>((c0, Seq::empty())));
    let c1 = SigCounts { self_sign: 0, prev_sign: 1, root_sign: 1 };
    assert(plan_upto(existing, e, 1) == Ok::<(SigCounts, Seq<Seq<u8>>), OckamError>((c1, seq![pk])));
    let c2 = SigCounts { self_sign: 0, prev_sign: 0, root_sign: 1 };
    assert(seq![pk].push(prev) =~= seq![pk, prev]);
    assert(plan_upto(existing, e, 2) == Ok::<(SigCounts, Seq<Seq<u8>>), OckamError>((c2, seq![pk, prev])));
    let c3 = SigCounts { self_sign: 0, prev_sign: 0, root_sign: 0 };
    assert(seq![pk, prev].push(root) =~= seq![pk, prev, root]);
    assert(plan_upto(existing, e, 3) == Ok::<(SigCounts, Seq<Seq<u8>>), OckamError>((c3, seq![pk, prev, root])));
}

/// Once one of the checks fails, the result of the later ones is that failure.
pub proof fn lemma_first_failure_decides(known: Seq<EventView>, new: Seq<EventView>, n: nat)
    requires
        n <= new.len(),
        consistency_upto(known, new, n) is Err,
    ensures
        consistency(known, new) == consistency_upto(known, new, n),
    decreases new.len() - n,
{
    if n < new.len() {
        assert(consistency_upto(known, new, n + 1) == consistency_upto(known, new, n));
        lemma_first_failure_decides(known, new, n + 1);
    }
}

// ---------------------------------------------------------------------------
// What the checks of a chain guarantee
// ---------------------------------------------------------------------------

/// New events that may follow known ones each hold exactly one change and name the
/// event just before them: the first names the last known event (where there is
/// one), and each other names the new event before it. Whatever change an event
/// holds, an event that does not name its predecessor is refused.
pub proof fn lemma_consistent_events_are_linked(known: Seq<EventView>, new: Seq<EventView>)
    requires
        consistency(known, new) is Ok,
    ensures
        forall|i: int| 0 <= i < new.len() ==> (#[trigger] new[i]).changes.data.len() == 1,
        new.len() > 0 && known.len() > 0 ==> new[0].changes.prev_event_id == known.last().identifier,
        forall|i: int|
            #![trigger new[i]]
            1 <= i < new.len() ==> new[i].changes.prev_event_id == new[i - 1].identifier,
{
    assert forall|i: int| 0 <= i < new.len() implies {
        &&& (#[trigger] new[i]).changes.data.len() == 1
        &&& i == 0 && known.len() > 0 ==> new[0].changes.prev_event_id == known.last().identifier
        &&& i >= 1 ==> new[i].changes.prev_event_id == new[i - 1].identifier
    } by {
        lemma_consistency_ok_prefix(known, new, (i + 1) as nat);
    }
}

/// New events that each hold exactly one change and name the event just before them
/// may follow the known events: the checks refuse nothing else.
pub proof fn lemma_linked_events_are_consistent(known: Seq<EventView>, new: Seq<EventView>)
    requires
        forall|i: int| 0 <= i < new.len() ==> (#[trigger] new[i]).changes.data.len() == 1,
        new.len() > 0 && known.len() > 0 ==> new[0].changes.prev_event_id == known.last().identifier,
        forall|i: int|
            #![trigger new[i]]
            1 <= i < new.len() ==> new[i].changes.prev_event_id == new[i - 1].identifier,
    ensures
        consistency(known, new) is Ok,
{
    lemma_linked_upto(known, new, new.len());
}

proof fn lemma_linked_upto(known: Seq<EventView>, new: Seq<EventView>, n: nat)
    requires
        n <= new.len(),
        forall|i: int| 0 <= i < new.len() ==> (#[trigger] new[i]).changes.data.len() == 1,
        new.len() > 0 && known.len() > 0 ==> new[0].changes.prev_event_id == known.last().identifier,
        forall|i: int|
            #![trigger new[i]]
            1 <= i < new.len() ==> new[i].changes.prev_event_id == new[i - 1].identifier,
    ensures
        consistency_upto(known, new, n) is Ok,
    decreases n,
{
    if n > 0 {
        lemma_linked_upto(known, new, (n - 1) as nat);
        assert(new[n - 1].changes.data.len() == 1);
    }
}

/// One event that may follow known ones names the last of them.
pub proof fn lemma_consistent_event_names_last(known: Seq<EventView>, e: EventView)
    requires
        consistency(known, seq![e]) is Ok,
    ensures
        known.len() == 0 || known.last().identifier == e.changes.prev_event_id,
        e.changes.data.len() == 1,
{
    lemma_consistent_events_are_linked(known, seq![e]);
    assert(seq![e][0] == e);
}

/// How many of `signatures` are of the kind `t`.
pub open spec fn signatures_of_kind(signatures: Seq<SignatureView>, t: SignatureType) -> nat
    decreases signatures.len(),
{
    if signatures.len() == 0 {
        0
    } else {
        signatures_of_kind(signatures.drop_last(), t) + if signatures.last().stype == t {
            1nat
        } else {
            0nat
        }
    }
}

/// What the planning of the first `n` signatures leaves to be signed: the counts that
/// the event's kind calls for, less the signatures of each kind among the first `n`.
proof fn lemma_plan_counts(existing: Seq<EventView>, e: EventView, n: nat)
    requires
        n <= e.signatures.len(),
        plan_upto(existing, e, n) is Ok,
    ensures
        required_counts(existing, e) is Ok,
        forall|t: SignatureType|
            #[trigger] count_of(plan_upto(existing, e, n)->Ok_0.0, t) == count_of(
                required_counts(existing, e)->Ok_0,
                t,
            ) - signatures_of_kind(e.signatures.subrange(0, n as int), t),
    decreases n,
{
    if n == 0 {
        assert(e.signatures.subrange(0, 0) =~= Seq::<SignatureView>::empty());
    } else {
        lemma_plan_counts(existing, e, (n - 1) as nat);
        let sub = e.signatures.subrange(0, n as int);
        assert(sub.drop_last() =~= e.signatures.subrange(0, n - 1));
        assert(sub.last() == e.signatures[n - 1]);
        let p = plan_upto(existing, e, (n - 1) as nat)->Ok_0;
        let t0 = e.signatures[n - 1].stype;
        assert(plan_upto(existing, e, n)->Ok_0.0 == count_down(p.0, t0));
        assert forall|t: SignatureType|
            #[trigger] count_of(plan_upto(existing, e, n)->Ok_0.0, t) == count_of(
                required_counts(existing, e)->Ok_0,
                t,
            ) - signatures_of_kind(sub, t) by {
            assert(count_of(p.0, t) == count_of(required_counts(existing, e)->Ok_0, t) - signatures_of_kind(
                e.signatures.subrange(0, n - 1),
                t,
            ));
            match t {
                SignatureType::SelfSign => {},
                SignatureType::PrevSign => {},
                SignatureType::RootSign => {},
            }
        }
    }
}

/// An event whose signatures are planned carries exactly the signatures that its kind
/// calls for: a new key, one signature by itself, none by a replaced key, and one by
/// the root key unless it is the first key of the profile; a rotated key, one
/// signature by itself, one by the key it replaces and one by the root key. A
/// signature missing or superfluous makes the plan fail.
pub proof fn lemma_planned_signatures_are_complete(existing: Seq<EventView>, e: EventView)
    requires
        signature_plan(existing, e) is Ok,
    ensures
        e.changes.data.len() > 0,
        e.changes.data[0].change_type is CreateKey ==> {
            &&& signatures_of_kind(e.signatures, SignatureType::SelfSign) == 1
            &&& signatures_of_kind(e.signatures, SignatureType::PrevSign) == 0
            &&& signatures_of_kind(e.signatures, SignatureType::RootSign) == (if existing.len() == 0 {
                0nat
            } else {
                1nat
            })
        },
        e.changes.data[0].change_type is RotateKey ==> {
            &&& signatures_of_kind(e.signatures, SignatureType::SelfSign) == 1
            &&& signatures_of_kind(e.signatures, SignatureType::PrevSign) == 1
            &&& signatures_of_kind(e.signatures, SignatureType::RootSign) == 1
        },
        e.changes.data[0].change_type is RotateKey ==> exists|j: int|
            0 <= j < e.signatures.len() && #[trigger] e.signatures[j].stype == SignatureType::PrevSign,
{
    let n = e.signatures.len();
    lemma_plan_counts(existing, e, n);
    assert(e.signatures.subrange(0, n as int) =~= e.signatures);
    let c = plan_upto(existing, e, n)->Ok_0.0;
    assert(count_of(c, SignatureType::SelfSign) == 0);
    assert(count_of(c, SignatureType::PrevSign) == 0);
    assert(count_of(c, SignatureType::RootSign) == 0);
    if e.changes.data[0].change_type is RotateKey {
        lemma_kind_present(e.signatures, SignatureType::PrevSign);
    }
}

/// A kind that some signature has is the kind of one of them.
proof fn lemma_kind_present(signatures: Seq<SignatureView>, t: SignatureType)
    requires
        signatures_of_kind(signatures, t) > 0,
    ensures
        exists|j: int| 0 <= j < signatures.len() && #[trigger] signatures[j].stype == t,
    decreases signatures.len(),
{
    if signatures.last().stype == t {
        assert(signatures[signatures.len() - 1].stype == t);
    } else {
        lemma_kind_present(signatures.drop_last(), t);
        let j = choose|j: int| 0 <= j < signatures.drop_last().len() && #[trigger] signatures.drop_last()[j].stype == t;
        assert(signatures[j] == signatures.drop_last()[j]);
    }
}

} // verus!
