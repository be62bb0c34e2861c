//! Contacts: the identifiers and change histories of other profiles.
use vstd::prelude::*;

use crate::change::{EventView, ProfileChangeEvent, copy_events, events_view};
use crate::encoding::encode_changes;
use crate::error::{CoreError, OckamError};
use crate::history::{
    ProfileChangeHistory, chain_verified, chain_verified_from, consistency, current_public_key, event_verified,
    first_root_public_key, may_refuse_hash, profile_update_label, signature_plan,
    signatures_well_formed,
};
use crate::identifiers::ProfileIdentifier;
use crate::vault::{ProfileVault, PublicKey};
use crate::vault_model::{lemma_reaches_extend, lemma_reaches_self, lemma_reaches_trans, reaches, vault_step};

verus! {

pub ghost struct ContactView {
    pub identifier: Seq<char>,
    pub events: Seq<EventView>,
}

/// What a contact's verification establishes of its view, beyond what the vault
/// decides: the chain of events is consistent, every event carries the signatures
/// that its place calls for, and the chain starts with the creation of a root key.
pub open spec fn contact_structure_ok(c: ContactView) -> bool {
    &&& consistency(Seq::empty(), c.events) is Ok
    &&& signatures_well_formed(c.events)
    &&& first_root_public_key(c.events) is Ok
}

/// Whether a contact checks out under vault type `V`: its chain is structurally sound,
/// every event checks out against the events before it, and its identifier is the
/// identifier of its root public key.
pub open spec fn contact_verified<V: ProfileVault>(c: ContactView) -> bool {
    &&& contact_structure_ok(c)
    &&& chain_verified::<V>(c.events)
    &&& c.identifier == V::key_id_spec(first_root_public_key(c.events)->Ok_0)
}

/// Whether `e` is an error that some vault of type `V`, in some state, gives to one of
/// the requests of verifying a contact whose chain checks out: the request to hash the
/// changes of an event, or the request for the identifier of the root public key. This
/// speaks of the vault type, not of one vault: the requests of a verification follow
/// one another in a loop.
pub open spec fn may_refuse_verification<V: ProfileVault>(c: ContactView, e: CoreError) -> bool {
    ||| may_refuse_hash::<V>(c.events, e)
    ||| exists|v: V, after: V| #[trigger] v.compute_key_id_result(first_root_public_key(c.events)->Ok_0, Err(e), after)
}

/// What updating a contact with new events leads to: the identifier stays; when the
/// new events do not follow the contact's history, the contact is unchanged and the
/// result is the first failed check; otherwise a prefix of the new events is appended
/// (all of them on success), each appended event having checked out, under vault type
/// `V`, against the events before it. Where every new event checks out, the update
/// fails only where the vault refuses to hash an event's changes. No new events is a
/// success that changes nothing.
pub open spec fn contact_update_outcome<V: ProfileVault>(
    before: ContactView,
    new: Seq<EventView>,
    r: Result<(), CoreError>,
    after: ContactView,
) -> bool {
    &&& after.identifier == before.identifier
    &&& consistency(before.events, new) matches Err(e) ==> (r == Err::<(), CoreError>(
        CoreError::Ockam(e),
    ) && after == before)
    &&& exists|k: int| 0 <= k <= new.len() && after.events == before.events + new.subrange(0, k)
    &&& r is Ok ==> after.events == before.events + new
    &&& r is Ok ==> consistency(before.events, new) is Ok
    &&& forall|i: int|
        before.events.len() <= i < after.events.len() ==> #[trigger] event_verified::<V>(
            after.events.subrange(0, i),
            after.events[i],
        )
    &&& r matches Err(e) ==> (consistency(before.events, new) is Ok && chain_verified_from::<V>(
        before.events + new,
        before.events.len() as int,
    ) ==> may_refuse_hash::<V>(before.events + new, e))
    &&& new.len() == 0 ==> (r is Ok && after == before)
}

/// Another profile, as this one knows it.
#[derive(Debug)]
pub struct Contact {
    pub identifier: ProfileIdentifier,
    pub change_history: ProfileChangeHistory,
}

impl View for Contact {
    type V = ContactView;

    open spec fn view(&self) -> ContactView {
        ContactView { identifier: self.identifier@, events: self.change_history@ }
    }
}

impl Contact {
    pub fn new(identifier: ProfileIdentifier, change_events: Vec<ProfileChangeEvent>) -> (c: Contact)
        ensures
            c@ == (ContactView { identifier: identifier@, events: events_view(change_events@) }),
    {
        Contact { identifier, change_history: ProfileChangeHistory::new(change_events) }
    }

    /// The contact's identifier.
    pub fn identifier(&self) -> (i: &ProfileIdentifier)
        ensures
            i@ == self@.identifier,
    {
        &self.identifier
    }

    /// The contact's change events, oldest first.
    pub fn change_events(&self) -> (s: &[ProfileChangeEvent])
        ensures
            events_view(s@) == self@.events,
    {
        self.change_history.as_ref()
    }

    /// A copy of the contact.
    pub fn duplicate(&self) -> (c: Contact)
        ensures
            c@ == self@,
    {
        Contact::new(self.identifier.duplicate(), copy_events(self.change_events()))
    }

    /// Verify the contact: the chain of events must be consistent, every event valid,
    /// and the identifier the identifier of the root key. A contact without events
    /// fails; one whose chain checks out fails only where the vault refuses a request
    /// or where its identifier is not that of its root key.
    pub fn verify<V: ProfileVault>(&self, vault: &mut V) -> (r: Result<(), CoreError>)
        ensures
            consistency(Seq::empty(), self@.events) matches Err(e) ==> r == Err::<(), CoreError>(
                CoreError::Ockam(e),
            ),
            self@.events.len() == 0 ==> r == Err::<(), CoreError>(
                CoreError::Ockam(OckamError::VerifyFailed),
            ),
            r is Ok ==> contact_verified::<V>(self@),
            r matches Err(e) ==> (contact_structure_ok(self@) && chain_verified::<V>(self@.events)
                ==> (may_refuse_verification::<V>(self@, e) || (e == CoreError::Ockam(
                OckamError::ProfileIdDoesntMatch,
            ) && self@.identifier != V::key_id_spec(first_root_public_key(self@.events)->Ok_0)))),
            contact_verified::<V>(self@) ==> (r is Ok || may_refuse_verification::<V>(self@, r->Err_0)),
            reaches(*old(vault), *final(vault)),
    {
        proof { lemma_reaches_self(*vault); }
        let no_events: Vec<ProfileChangeEvent> = Vec::new();
        assert(events_view(no_events@) =~= Seq::<EventView>::empty());
        match ProfileChangeHistory::check_consistency(no_events.as_slice(), self.change_events()) {
            Ok(()) => {},
            Err(e) => return Err(CoreError::Ockam(e)),
        }
        self.change_history.verify_all_existing_events(vault)?;
        let root_public_key = match self.change_history.get_first_root_public_key() {
            Ok(k) => k,
            Err(e) => return Err(CoreError::Ockam(e)),
        };
        let ghost before = *vault;
        let key_id = vault.compute_key_id_for_public_key(&root_public_key);
        proof {
            assert(vault_step(before, *vault));
            lemma_reaches_extend(*old(vault), before, *vault);
        }
        let root_key_id = match key_id {
            Ok(k) => k,
            Err(e) => {
                assert(before.compute_key_id_result(first_root_public_key(self@.events)->Ok_0, Err(e), *vault));
                return Err(e);
            },
        };
        match self.identifier.check_root_key_id(root_key_id) {
            Ok(()) => Ok(()),
            Err(e) => Err(CoreError::Ockam(e)),
        }
    }

    /// Verify `change_events` as the continuation of the contact's history and append
    /// them one by one; on failure the events verified before it stay appended.
    pub fn verify_and_update<V: ProfileVault>(
        &mut self,
        change_events: Vec<ProfileChangeEvent>,
        vault: &mut V,
    ) -> (r: Result<(), CoreError>)
        ensures
            contact_update_outcome::<V>(old(self)@, events_view(change_events@), r, final(self)@),
            reaches(*old(vault), *final(vault)),
    {
        proof { lemma_reaches_self(*vault); }
        let ghost old_events = self@.events;
        let ghost new = events_view(change_events@);
        match ProfileChangeHistory::check_consistency(self.change_events(), change_events.as_slice()) {
            Ok(()) => {},
            Err(e) => {
                assert(old_events + new.subrange(0, 0) =~= old_events);
                return Err(CoreError::Ockam(e));
            },
        }
        let mut remaining = change_events;
        let ghost mut k: int = 0;
        assert(old_events + new.subrange(0, 0) =~= old_events);
        while remaining.len() > 0
            invariant
                0 <= k <= new.len(),
                k + remaining@.len() == new.len(),
                new == events_view(change_events@),
                old_events == old(self)@.events,
                consistency(old_events, new) is Ok,
                reaches(*old(vault), *vault),
                events_view(remaining@) == new.subrange(k, new.len() as int),
                self@.identifier == old(self)@.identifier,
                self@.events == old_events + new.subrange(0, k),
                forall|i: int|
                    old_events.len() <= i < self@.events.len() ==> #[trigger] event_verified::<V>(
                        self@.events.subrange(0, i),
                        self@.events[i],
                    ),
            decreases remaining@.len(),
        {
            let ghost before = self@.events;
            assert(events_view(remaining@).len() == remaining@.len());
            assert(k < new.len());
            assert(events_view(remaining@)[0] == remaining@[0]@);
            assert(new.subrange(k, new.len() as int)[0] == new[k]);
            let ghost rem_before = remaining@;
            let event = remaining.remove(0);
            assert(event@ == new[k]);
            let ghost vault_before = *vault;
            let verified = ProfileChangeHistory::verify_event(self.change_events(), &event, vault);
            proof { lemma_reaches_trans(*old(vault), vault_before, *vault); }
            match verified {
                Ok(()) => {},
                Err(e) => {
                    proof {
                        let all = old_events + new;
                        let at = old_events.len() + k;
                        if chain_verified_from::<V>(all, old_events.len() as int) {
                            assert(all.subrange(0, at) =~= self@.events);
                            assert(all[at] == new[k]);
                            assert(event_verified::<V>(all.subrange(0, at), all[at]));
                            assert(vault_before.sha256_result(encode_changes(all[at].changes), Err(e), *vault));
                        }
                    }
                    return Err(e);
                },
            }
            self.change_history.push_event(event);
            proof {
                assert(new.subrange(0, k + 1) =~= new.subrange(0, k).push(new[k]));
                assert(self@.events == old_events + new.subrange(0, k + 1));
                assert(self@.events.subrange(0, before.len() as int) =~= before);
                assert(remaining@ == rem_before.remove(0));
                assert forall|j: int| 0 <= j < remaining@.len() implies events_view(remaining@)[j] == new.subrange(k + 1, new.len() as int)[j] by {
                    assert(remaining@[j] == rem_before[j + 1]);
                    assert(events_view(rem_before)[j + 1] == new.subrange(k, new.len() as int)[j + 1]);
                }
                assert(events_view(remaining@) =~= new.subrange(k + 1, new.len() as int));
                assert forall|i: int|
                    old_events.len() <= i < self@.events.len() implies #[trigger] event_verified::<V>(
                        self@.events.subrange(0, i),
                        self@.events[i],
                    ) by {
                    if i < before.len() {
                        assert(self@.events.subrange(0, i) =~= before.subrange(0, i));
                    }
                }
            }
            proof { k = k + 1; }
        }
        assert(new.subrange(0, new.len() as int) =~= new);
        Ok(())
    }

    /// The current public key of the contact's profile update key.
    pub fn get_profile_update_public_key(&self) -> (r: Result<PublicKey, OckamError>)
        ensures
            match current_public_key(self@.events, profile_update_label()) {
                Some(k) => r matches Ok(pk) && pk@ == k,
                None => r == Err::<PublicKey, OckamError>(OckamError::InvalidInternalState),
            },
    {
        ProfileChangeHistory::get_current_profile_update_public_key(self.change_events())
    }
}


/// A contact that checks out still checks out after a successful update: the checks
/// of the update and those of the history compose, and the root key, hence the
/// identifier that it must match, stays.
pub proof fn lemma_updated_contact_stays_valid<V: ProfileVault>(
    before: ContactView,
    new: Seq<EventView>,
    r: Result<(), CoreError>,
    after: ContactView,
)
    requires
        contact_verified::<V>(before),
        contact_update_outcome::<V>(before, new, r, after),
        r is Ok,
    ensures
        contact_verified::<V>(after),
        after.identifier == before.identifier,
        first_root_public_key(after.events) == first_root_public_key(before.events),
{
    crate::history::lemma_consistency_append(before.events, new);
    assert forall|i: int| 0 <= i < after.events.len() implies #[trigger] event_verified::<V>(
        after.events.subrange(0, i),
        after.events[i],
    ) by {
        if i < before.events.len() {
            assert(after.events.subrange(0, i) =~= before.events.subrange(0, i));
            assert(after.events[i] == before.events[i]);
            assert(event_verified::<V>(before.events.subrange(0, i), before.events[i]));
        }
    }
    crate::history::lemma_verified_chain_well_formed::<V>(after.events);
    assert(after.events[0] == before.events[0]);
}

// ---------------------------------------------------------------------------
// The contacts database
// ---------------------------------------------------------------------------

pub open spec fn contacts_view(s: Seq<Contact>) -> Seq<ContactView> {
    s.map_values(|c: Contact| c@)
}

/// Whether no two contacts of a list share an identifier.
pub open spec fn ids_unique(s: Seq<ContactView>) -> bool {
    forall|i: int, j: int|
        0 <= i < s.len() && 0 <= j < s.len() && i != j ==> s[i].identifier != s[j].identifier
}

pub open spec fn has_id(s: Seq<ContactView>, k: Seq<char>) -> bool {
    exists|i: int| 0 <= i < s.len() && s[i].identifier == k
}

pub open spec fn index_of_id(s: Seq<ContactView>, k: Seq<char>) -> int {
    choose|i: int| 0 <= i < s.len() && s[i].identifier == k
}

/// A list of contacts as a map from identifier to contact.
pub open spec fn contacts_map(s: Seq<ContactView>) -> Map<Seq<char>, ContactView> {
    Map::new(|k: Seq<char>| has_id(s, k), |k: Seq<char>| s[index_of_id(s, k)])
}

proof fn lemma_index_of_id(s: Seq<ContactView>, i: int)
    requires
        ids_unique(s),
        0 <= i < s.len(),
    ensures
        has_id(s, s[i].identifier),
        index_of_id(s, s[i].identifier) == i,
{
    let k = s[i].identifier;
    assert(has_id(s, k));
    let j = index_of_id(s, k);
    assert(0 <= j < s.len() && s[j].identifier == k);
}

proof fn lemma_map_update(s: Seq<ContactView>, i: int, c: ContactView)
    requires
        ids_unique(s),
        0 <= i < s.len(),
        c.identifier == s[i].identifier,
    ensures
        ids_unique(s.update(i, c)),
        contacts_map(s.update(i, c)) == contacts_map(s).insert(c.identifier, c),
{
    let t = s.update(i, c);
    assert(ids_unique(t));
    assert forall|k: Seq<char>| has_id(t, k) == (has_id(s, k) || k == c.identifier) by {
        if has_id(t, k) {
            let j = choose|j: int| 0 <= j < t.len() && t[j].identifier == k;
            assert(s[j].identifier == k);
        }
        if has_id(s, k) {
            let j = choose|j: int| 0 <= j < s.len() && s[j].identifier == k;
            assert(t[j].identifier == k);
        }
        if k == c.identifier {
            assert(t[i].identifier == k);
        }
    }
    assert forall|k: Seq<char>| has_id(t, k) implies t[index_of_id(t, k)] == contacts_map(s).insert(
        c.identifier,
        c,
    )[k] by {
        let j = index_of_id(t, k);
        lemma_index_of_id(t, j);
        if k == c.identifier {
            lemma_index_of_id(t, i);
        } else {
            lemma_index_of_id(s, j);
        }
    }
    assert(contacts_map(t) =~= contacts_map(s).insert(c.identifier, c));
}

proof fn lemma_map_push(s: Seq<ContactView>, c: ContactView)
    requires
        ids_unique(s),
        !has_id(s, c.identifier),
    ensures
        ids_unique(s.push(c)),
        contacts_map(s.push(c)) == contacts_map(s).insert(c.identifier, c),
{
    let t = s.push(c);
    assert forall|i: int, j: int|
        0 <= i < t.len() && 0 <= j < t.len() && i != j implies t[i].identifier != t[j].identifier by {
        if i == s.len() as int {
            assert(s[j].identifier == t[j].identifier);
        } else if j == s.len() as int {
            assert(s[i].identifier == t[i].identifier);
        }
    }
    assert forall|k: Seq<char>| has_id(t, k) == (has_id(s, k) || k == c.identifier) by {
        if has_id(t, k) {
            let j = choose|j: int| 0 <= j < t.len() && t[j].identifier == k;
            if j < s.len() {
                assert(s[j].identifier == k);
            }
        }
        if has_id(s, k) {
            let j = choose|j: int| 0 <= j < s.len() && s[j].identifier == k;
            assert(t[j].identifier == k);
        }
        if k == c.identifier {
            assert(t[s.len() as int].identifier == k);
        }
    }
    assert forall|k: Seq<char>| has_id(t, k) implies t[index_of_id(t, k)] == contacts_map(s).insert(
        c.identifier,
        c,
    )[k] by {
        let j = index_of_id(t, k);
        lemma_index_of_id(t, j);
        if k != c.identifier {
            lemma_index_of_id(s, j);
        }
    }
    assert(contacts_map(t) =~= contacts_map(s).insert(c.identifier, c));
}

/// The contacts of a profile, by identifier.
#[derive(Debug)]
pub struct ContactsDb {
    contacts: Vec<Contact>,
}

impl View for ContactsDb {
    type V = Map<Seq<char>, ContactView>;

    closed spec fn view(&self) -> Map<Seq<char>, ContactView> {
        contacts_map(contacts_view(self.contacts@))
    }
}

impl ContactsDb {
    #[verifier::type_invariant]
    spec fn ids_are_unique(self) -> bool {
        ids_unique(contacts_view(self.contacts@))
    }

    /// A database without contacts.
    pub fn new() -> (db: ContactsDb)
        ensures
            db@ == Map::<Seq<char>, ContactView>::empty(),
    {
        let db = ContactsDb { contacts: Vec::new() };
        assert(db@ =~= Map::<Seq<char>, ContactView>::empty());
        db
    }

    /// The number of contacts.
    pub fn len(&self) -> (n: usize)
        ensures
            n == self@.dom().len(),
    {
        proof {
            use_type_invariant(self);
            self.lemma_dom_len();
        }
        self.contacts.len()
    }

    proof fn lemma_dom_len(&self)
        requires
            ids_unique(contacts_view(self.contacts@)),
        ensures
            self@.dom().len() == self.contacts@.len(),
            self@.dom().finite(),
    {
        let s = contacts_view(self.contacts@);
        let ids = s.map_values(|c: ContactView| c.identifier);
        assert forall|i: int, j: int| 0 <= i < ids.len() && 0 <= j < ids.len() && i != j implies ids[i] != ids[j] by {}
        ids.unique_seq_to_set();
        assert(self@.dom() =~= ids.to_set()) by {
            assert forall|k: Seq<char>| self@.dom().contains(k) <==> ids.to_set().contains(k) by {
                if has_id(s, k) {
                    let j = choose|j: int| 0 <= j < s.len() && s[j].identifier == k;
                    assert(ids[j] == k);
                }
                if ids.contains(k) {
                    let j = choose|j: int| 0 <= j < ids.len() && ids[j] == k;
                    assert(s[j].identifier == k);
                }
            }
        }
    }

    /// Move the contacts out, leaving none.
    fn take_contacts(&mut self) -> (contacts: Vec<Contact>)
        ensures
            contacts@ == old(self).contacts@,
            final(self).contacts@.len() == 0,
    {
        let mut contacts: Vec<Contact> = Vec::new();
        std::mem::swap(&mut contacts, &mut self.contacts);
        contacts
    }

    fn find(&self, id: &ProfileIdentifier) -> (r: Option<usize>)
        ensures
            match r {
                Some(i) => i < self.contacts@.len() && self.contacts@[i as int]@.identifier == id@,
                None => !has_id(contacts_view(self.contacts@), id@),
            },
    {
        let mut i: usize = 0;
        while i < self.contacts.len()
            invariant
                i <= self.contacts@.len(),
                forall|j: int| 0 <= j < i ==> self.contacts@[j]@.identifier != id@,
            decreases self.contacts@.len() - i,
        {
            if self.contacts[i].identifier().same_as(id) {
                return Some(i);
            }
            i = i + 1;
        }
        assert(!has_id(contacts_view(self.contacts@), id@)) by {
            if has_id(contacts_view(self.contacts@), id@) {
                let j = choose|j: int|
                    0 <= j < contacts_view(self.contacts@).len() && contacts_view(self.contacts@)[j].identifier
                        == id@;
                assert(self.contacts@[j]@.identifier == id@);
            }
        }
        None
    }

    /// The contact with the given identifier.
    pub fn get(&self, id: &ProfileIdentifier) -> (r: Option<&Contact>)
        ensures
            match r {
                Some(c) => self@.contains_key(id@) && c@ == self@[id@],
                None => !self@.contains_key(id@),
            },
    {
        proof { use_type_invariant(self); }
        match self.find(id) {
            Some(i) => {
                proof { lemma_index_of_id(contacts_view(self.contacts@), i as int); }
                Some(&self.contacts[i])
            },
            None => None,
        }
    }

    /// Add a contact, replacing the one with the same identifier.
    pub fn insert(&mut self, contact: Contact)
        ensures
            final(self)@ == old(self)@.insert(contact@.identifier, contact@),
    {
        proof { use_type_invariant(&*self); }
        let ghost s = contacts_view(self.contacts@);
        let ghost cv = contact@;
        match self.find(contact.identifier()) {
            Some(i) => {
                proof {
                    lemma_map_update(s, i as int, cv);
                }
                let mut contacts = self.take_contacts();
                contacts.set(i, contact);
                assert(contacts_view(contacts@) =~= s.update(i as int, cv));
                self.contacts = contacts;
            },
            None => {
                proof {
                    lemma_map_push(s, cv);
                }
                let mut contacts = self.take_contacts();
                contacts.push(contact);
                assert(contacts_view(contacts@) =~= s.push(cv));
                self.contacts = contacts;
            },
        }
    }

    /// Verify `change_events` as the continuation of the history of the contact with
    /// the given identifier, and append them to it.
    pub fn verify_and_update_contact<V: ProfileVault>(
        &mut self,
        profile_id: &ProfileIdentifier,
        change_events: Vec<ProfileChangeEvent>,
        vault: &mut V,
    ) -> (r: Result<(), CoreError>)
        ensures
            !old(self)@.contains_key(profile_id@) ==> r == Err::<(), CoreError>(
                CoreError::Ockam(OckamError::ContactNotFound),
            ) && final(self)@ == old(self)@,
            old(self)@.contains_key(profile_id@) ==> exists|c: ContactView|
                final(self)@ == old(self)@.insert(profile_id@, c) && #[trigger] contact_update_outcome::<V>(
                    old(self)@[profile_id@],
                    events_view(change_events@),
                    r,
                    c,
                ),
            reaches(*old(vault), *final(vault)),
    {
        proof { use_type_invariant(&*self); }
        proof { lemma_reaches_self(*vault); }
        let ghost s = contacts_view(self.contacts@);
        match self.find(profile_id) {
            None => Err(CoreError::Ockam(OckamError::ContactNotFound)),
            Some(i) => {
                proof { lemma_index_of_id(s, i as int); }
                let ghost new = events_view(change_events@);
                let mut contact = self.contacts[i].duplicate();
                assert(contact@ == old(self)@[profile_id@]);
                let r = contact.verify_and_update(change_events, vault);
                assert(reaches(*old(vault), *vault));
                let ghost cv = contact@;
                assert(contact_update_outcome::<V>(old(self)@[profile_id@], new, r, cv));
                proof {
                    lemma_map_update(s, i as int, cv);
                }
                let mut contacts = self.take_contacts();
                contacts.set(i, contact);
                assert(contacts_view(contacts@) =~= s.update(i as int, cv));
                self.contacts = contacts;
                r
            },
        }
    }
}

} // verus!
