//! Change events: what a profile's history is made of.
use vstd::prelude::*;

use crate::identifiers::EventIdentifier;
use crate::vault::{copy_bytes, PublicKey};

verus! {

/// Attributes of a key. The label identifies the key within a profile.
#[derive(Debug, Clone)]
pub struct KeyAttributes {
    pub label: String,
}

impl View for KeyAttributes {
    type V = Seq<char>;

    open spec fn view(&self) -> Seq<char> {
        self.label@
    }
}

impl KeyAttributes {
    pub fn new(label: String) -> (a: KeyAttributes)
        ensures
            a@ == label@,
    {
        KeyAttributes { label }
    }

    /// The key's label.
    pub fn label(&self) -> (l: &String)
        ensures
            l@ == self@,
    {
        &self.label
    }

    /// A copy of the attributes.
    pub fn duplicate(&self) -> (a: KeyAttributes)
        ensures
            a@ == self@,
    {
        KeyAttributes { label: self.label.clone() }
    }
}

pub open spec fn attributes_view(a: Seq<(String, String)>) -> Seq<(Seq<char>, Seq<char>)> {
    a.map_values(|p: (String, String)| (p.0@, p.1@))
}

/// Whether no name occurs twice among attributes.
pub open spec fn names_unique(a: Seq<(Seq<char>, Seq<char>)>) -> bool {
    forall|i: int, j: int| 0 <= i < a.len() && 0 <= j < a.len() && i != j ==> a[i].0 != a[j].0
}

/// The attributes after setting `name` to `value`: the value replaces the one of that
/// name where there is one, and is added after the others where there is none.
pub open spec fn set_attribute(
    a: Seq<(Seq<char>, Seq<char>)>,
    name: Seq<char>,
    value: Seq<char>,
) -> Seq<(Seq<char>, Seq<char>)> {
    if exists|i: int| 0 <= i < a.len() && a[i].0 == name {
        a.update(choose|i: int| 0 <= i < a.len() && a[i].0 == name, (name, value))
    } else {
        a.push((name, value))
    }
}

/// The value of the attribute with the given name, if there is one.
pub open spec fn attribute_value(a: Seq<(Seq<char>, Seq<char>)>, name: Seq<char>) -> Option<Seq<char>> {
    if exists|i: int| 0 <= i < a.len() && a[i].0 == name {
        Some(a[choose|i: int| 0 <= i < a.len() && a[i].0 == name].1)
    } else {
        None
    }
}

/// Where names are unique, the value of a name is the value next to it.
proof fn lemma_attribute_value_at(a: Seq<(Seq<char>, Seq<char>)>, i: int)
    requires
        names_unique(a),
        0 <= i < a.len(),
    ensures
        attribute_value(a, a[i].0) == Some(a[i].1),
{
    let c = choose|j: int| 0 <= j < a.len() && a[j].0 == a[i].0;
    assert(0 <= c < a.len() && a[c].0 == a[i].0);
}

/// Setting an attribute keeps names unique; reading the name afterwards gives back
/// the value set, and every other name keeps its value.
pub proof fn lemma_set_then_get(a: Seq<(Seq<char>, Seq<char>)>, name: Seq<char>, value: Seq<char>)
    requires
        names_unique(a),
    ensures
        names_unique(set_attribute(a, name, value)),
        attribute_value(set_attribute(a, name, value), name) == Some(value),
        forall|other: Seq<char>|
            other != name ==> #[trigger] attribute_value(set_attribute(a, name, value), other)
                == attribute_value(a, other),
{
    let b = set_attribute(a, name, value);
    if exists|i: int| 0 <= i < a.len() && a[i].0 == name {
        let c = choose|i: int| 0 <= i < a.len() && a[i].0 == name;
        assert(b == a.update(c, (name, value)));
        assert(names_unique(b));
        lemma_attribute_value_at(b, c);
        assert forall|other: Seq<char>| other != name implies #[trigger] attribute_value(b, other)
            == attribute_value(a, other) by {
            if exists|i: int| 0 <= i < a.len() && a[i].0 == other {
                let k = choose|i: int| 0 <= i < a.len() && a[i].0 == other;
                lemma_attribute_value_at(a, k);
                lemma_attribute_value_at(b, k);
            } else {
                assert forall|i: int| 0 <= i < b.len() implies b[i].0 != other by {
                    if i != c {
                        assert(b[i] == a[i]);
                    }
                }
            }
        }
    } else {
        assert(b == a.push((name, value)));
        assert(names_unique(b));
        lemma_attribute_value_at(b, a.len() as int);
        assert forall|other: Seq<char>| other != name implies #[trigger] attribute_value(b, other)
            == attribute_value(a, other) by {
            if exists|i: int| 0 <= i < a.len() && a[i].0 == other {
                let k = choose|i: int| 0 <= i < a.len() && a[i].0 == other;
                lemma_attribute_value_at(a, k);
                lemma_attribute_value_at(b, k);
            } else {
                assert forall|i: int| 0 <= i < b.len() implies b[i].0 != other by {
                    if i < a.len() {
                        assert(b[i] == a[i]);
                    }
                }
            }
        }
    }
}

/// Free-form attributes of a change: values by name, each name at most once, in the
/// order in which the names were first set.
#[derive(Debug)]
pub struct ProfileEventAttributes {
    entries: Vec<(String, String)>,
}

impl View for ProfileEventAttributes {
    type V = Seq<(Seq<char>, Seq<char>)>;

    closed spec fn view(&self) -> Seq<(Seq<char>, Seq<char>)> {
        attributes_view(self.entries@)
    }
}

impl ProfileEventAttributes {
    #[verifier::type_invariant]
    spec fn names_are_unique(self) -> bool {
        names_unique(attributes_view(self.entries@))
    }

    /// No attributes.
    pub fn new() -> (a: ProfileEventAttributes)
        ensures
            a@ == Seq::<(Seq<char>, Seq<char>)>::empty(),
    {
        let a = ProfileEventAttributes { entries: Vec::new() };
        assert(a@ =~= Seq::<(Seq<char>, Seq<char>)>::empty());
        a
    }

    /// The attributes as (name, value) pairs, in order.
    pub fn entries(&self) -> (r: &[(String, String)])
        ensures
            attributes_view(r@) == self@,
            names_unique(self@),
    {
        proof { use_type_invariant(self); }
        self.entries.as_slice()
    }

    /// The number of attributes.
    pub fn len(&self) -> (n: usize)
        ensures
            n == self@.len(),
    {
        self.entries.len()
    }

    /// The value of the attribute with the given name.
    pub fn get(&self, name: &String) -> (r: Option<&String>)
        ensures
            match attribute_value(self@, name@) {
                Some(v) => r matches Some(x) && x@ == v,
                None => r is None,
            },
    {
        proof { use_type_invariant(self); }
        let mut i: usize = 0;
        while i < self.entries.len()
            invariant
                i <= self.entries@.len(),
                names_unique(self@),
                forall|j: int| 0 <= j < i ==> self@[j].0 != name@,
            decreases self.entries@.len() - i,
        {
            assert(self@[i as int] == (self.entries@[i as int].0@, self.entries@[i as int].1@));
            if self.entries[i].0 == *name {
                proof { lemma_attribute_value_at(self@, i as int); }
                return Some(&self.entries[i].1);
            }
            i = i + 1;
        }
        None
    }

    /// Set the attribute `name` to `value`.
    pub fn insert(&mut self, name: String, value: String)
        ensures
            final(self)@ == set_attribute(old(self)@, name@, value@),
    {
        proof { use_type_invariant(&*self); }
        let ghost a = self@;
        let mut i: usize = 0;
        while i < self.entries.len()
            invariant
                i <= self.entries@.len(),
                a == attributes_view(self.entries@),
                a == old(self)@,
                names_unique(a),
                forall|j: int| 0 <= j < i ==> a[j].0 != name@,
            decreases self.entries@.len() - i,
        {
            assert(a[i as int] == (self.entries@[i as int].0@, self.entries@[i as int].1@));
            if self.entries[i].0 == name {
                let mut entries: Vec<(String, String)> = Vec::new();
                std::mem::swap(&mut entries, &mut self.entries);
                entries.set(i, (name, value));
                proof {
                    assert(exists|j: int| 0 <= j < a.len() && a[j].0 == name@);
                    let c = choose|j: int| 0 <= j < a.len() && a[j].0 == name@;
                    assert(c == i);
                    assert(attributes_view(entries@) =~= a.update(i as int, (name@, value@)));
                }
                self.entries = entries;
                return;
            }
            i = i + 1;
        }
        let mut entries: Vec<(String, String)> = Vec::new();
        std::mem::swap(&mut entries, &mut self.entries);
        entries.push((name, value));
        assert(attributes_view(entries@) =~= a.push((name@, value@)));
        self.entries = entries;
    }

    /// A copy of the attributes.
    pub fn duplicate(&self) -> (r: ProfileEventAttributes)
        ensures
            r@ == self@,
    {
        proof { use_type_invariant(self); }
        let mut r: Vec<(String, String)> = Vec::new();
        let mut i: usize = 0;
        while i < self.entries.len()
            invariant
                i <= self.entries@.len(),
                r@.len() == i,
                forall|j: int| 0 <= j < i ==> r@[j].0@ == self.entries@[j].0@ && r@[j].1@ == self.entries@[j].1@,
            decreases self.entries@.len() - i,
        {
            let (k, v) = &self.entries[i];
            r.push((k.clone(), v.clone()));
            i = i + 1;
        }
        assert(attributes_view(r@) =~= attributes_view(self.entries@));
        ProfileEventAttributes { entries: r }
    }
}

/// What a key change records: the key's label and its new public key.
pub ghost struct KeyChangeView {
    pub label: Seq<char>,
    pub public_key: Seq<u8>,
}

/// The creation of a key.
#[derive(Debug)]
pub struct CreateKeyChange {
    pub key_attributes: KeyAttributes,
    pub public_key: PublicKey,
}

impl View for CreateKeyChange {
    type V = KeyChangeView;

    open spec fn view(&self) -> KeyChangeView {
        KeyChangeView { label: self.key_attributes@, public_key: self.public_key@ }
    }
}

impl CreateKeyChange {
    pub fn new(key_attributes: KeyAttributes, public_key: PublicKey) -> (c: CreateKeyChange)
        ensures
            c@ == (KeyChangeView { label: key_attributes@, public_key: public_key@ }),
    {
        CreateKeyChange { key_attributes, public_key }
    }
}

/// The rotation of a key to a new public key.
#[derive(Debug)]
pub struct RotateKeyChange {
    pub key_attributes: KeyAttributes,
    pub public_key: PublicKey,
}

impl View for RotateKeyChange {
    type V = KeyChangeView;

    open spec fn view(&self) -> KeyChangeView {
        KeyChangeView { label: self.key_attributes@, public_key: self.public_key@ }
    }
}

impl RotateKeyChange {
    pub fn new(key_attributes: KeyAttributes, public_key: PublicKey) -> (c: RotateKeyChange)
        ensures
            c@ == (KeyChangeView { label: key_attributes@, public_key: public_key@ }),
    {
        RotateKeyChange { key_attributes, public_key }
    }
}

pub ghost enum ChangeTypeView {
    CreateKey(KeyChangeView),
    RotateKey(KeyChangeView),
}

impl ChangeTypeView {
    /// The key change that either kind records.
    pub open spec fn key_change(self) -> KeyChangeView {
        match self {
            ChangeTypeView::CreateKey(k) => k,
            ChangeTypeView::RotateKey(k) => k,
        }
    }
}

/// The kind of a change.
#[derive(Debug)]
pub enum ProfileChangeType {
    CreateKey(CreateKeyChange),
    RotateKey(RotateKeyChange),
}

impl View for ProfileChangeType {
    type V = ChangeTypeView;

    open spec fn view(&self) -> ChangeTypeView {
        match self {
            ProfileChangeType::CreateKey(c) => ChangeTypeView::CreateKey(c@),
            ProfileChangeType::RotateKey(c) => ChangeTypeView::RotateKey(c@),
        }
    }
}

pub ghost struct ProfileChangeView {
    pub version: u8,
    pub attributes: Seq<(Seq<char>, Seq<char>)>,
    pub change_type: ChangeTypeView,
}

/// One change of a profile.
#[derive(Debug)]
pub struct ProfileChange {
    pub version: u8,
    pub attributes: ProfileEventAttributes,
    pub change_type: ProfileChangeType,
}

impl View for ProfileChange {
    type V = ProfileChangeView;

    open spec fn view(&self) -> ProfileChangeView {
        ProfileChangeView {
            version: self.version,
            attributes: self.attributes@,
            change_type: self.change_type@,
        }
    }
}

impl ProfileChange {
    pub fn new(version: u8, attributes: ProfileEventAttributes, change_type: ProfileChangeType) -> (c:
        ProfileChange)
        ensures
            c@ == (ProfileChangeView {
                version,
                attributes: attributes@,
                change_type: change_type@,
            }),
    {
        ProfileChange { version, attributes, change_type }
    }

    /// A copy of the change.
    pub fn duplicate(&self) -> (c: ProfileChange)
        ensures
            c@ == self@,
    {
        let change_type = match &self.change_type {
            ProfileChangeType::CreateKey(k) => ProfileChangeType::CreateKey(
                CreateKeyChange {
                    key_attributes: k.key_attributes.duplicate(),
                    public_key: k.public_key.duplicate(),
                },
            ),
            ProfileChangeType::RotateKey(k) => ProfileChangeType::RotateKey(
                RotateKeyChange {
                    key_attributes: k.key_attributes.duplicate(),
                    public_key: k.public_key.duplicate(),
                },
            ),
        };
        ProfileChange {
            version: self.version,
            attributes: self.attributes.duplicate(),
            change_type,
        }
    }

    /// The label of the key that the change is about.
    pub fn key_label(&self) -> (l: &String)
        ensures
            l@ == self@.change_type.key_change().label,
    {
        match &self.change_type {
            ProfileChangeType::CreateKey(k) => k.key_attributes.label(),
            ProfileChangeType::RotateKey(k) => k.key_attributes.label(),
        }
    }

    /// The public key that the change records.
    pub fn public_key(&self) -> (k: &PublicKey)
        ensures
            k@ == self@.change_type.key_change().public_key,
    {
        match &self.change_type {
            ProfileChangeType::CreateKey(k) => &k.public_key,
            ProfileChangeType::RotateKey(k) => &k.public_key,
        }
    }
}

pub open spec fn changes_list_view(s: Seq<ProfileChange>) -> Seq<ProfileChangeView> {
    s.map_values(|c: ProfileChange| c@)
}

pub ghost struct ChangesView {
    pub prev_event_id: Seq<u8>,
    pub data: Seq<ProfileChangeView>,
}

/// The changes of one event, and the identifier of the event before it.
#[derive(Debug)]
pub struct Changes {
    pub prev_event_id: EventIdentifier,
    pub data: Vec<ProfileChange>,
}

impl View for Changes {
    type V = ChangesView;

    open spec fn view(&self) -> ChangesView {
        ChangesView { prev_event_id: self.prev_event_id@, data: changes_list_view(self.data@) }
    }
}

/// A copy of a list of changes.
pub fn copy_change_list(s: &Vec<ProfileChange>) -> (r: Vec<ProfileChange>)
    ensures
        changes_list_view(r@) == changes_list_view(s@),
{
    let mut r: Vec<ProfileChange> = Vec::new();
    let mut i: usize = 0;
    while i < s.len()
        invariant
            i <= s@.len(),
            r@.len() == i,
            forall|j: int| 0 <= j < i ==> r@[j]@ == s@[j]@,
        decreases s@.len() - i,
    {
        r.push(s[i].duplicate());
        i = i + 1;
    }
    assert(changes_list_view(r@) =~= changes_list_view(s@));
    r
}

impl Changes {
    pub fn new(prev_event_id: EventIdentifier, data: Vec<ProfileChange>) -> (c: Changes)
        ensures
            c@ == (ChangesView { prev_event_id: prev_event_id@, data: changes_list_view(data@) }),
    {
        Changes { prev_event_id, data }
    }

    /// A copy of the changes.
    pub fn duplicate(&self) -> (c: Changes)
        ensures
            c@ == self@,
    {
        Changes { prev_event_id: self.prev_event_id, data: copy_change_list(&self.data) }
    }
}

/// Which key made a signature of an event.
#[derive(Debug, Clone, Copy, PartialEq, Eq, Structural)]
pub enum SignatureType {
    /// The current profile update (root) key.
    RootSign,
    /// The key that the event introduces.
    SelfSign,
    /// The key that the event rotates away from.
    PrevSign,
}

pub ghost struct SignatureView {
    pub stype: SignatureType,
    pub data: Seq<u8>,
}

/// A signature of an event's identifier.
#[derive(Debug)]
pub struct Signature {
    pub stype: SignatureType,
    pub data: Vec<u8>,
}

impl View for Signature {
    type V = SignatureView;

    open spec fn view(&self) -> SignatureView {
        SignatureView { stype: self.stype, data: self.data@ }
    }
}

impl Signature {
    pub fn new(stype: SignatureType, data: Vec<u8>) -> (s: Signature)
        ensures
            s@ == (SignatureView { stype, data: data@ }),
    {
        Signature { stype, data }
    }
}

pub open spec fn signatures_view(s: Seq<Signature>) -> Seq<SignatureView> {
    s.map_values(|g: Signature| g@)
}

/// A copy of a list of signatures.
pub fn copy_signatures(s: &Vec<Signature>) -> (r: Vec<Signature>)
    ensures
        signatures_view(r@) == signatures_view(s@),
{
    let mut r: Vec<Signature> = Vec::new();
    let mut i: usize = 0;
    while i < s.len()
        invariant
            i <= s@.len(),
            r@.len() == i,
            forall|j: int| 0 <= j < i ==> r@[j]@ == s@[j]@,
        decreases s@.len() - i,
    {
        r.push(Signature { stype: s[i].stype, data: copy_bytes(s[i].data.as_slice()) });
        i = i + 1;
    }
    assert(signatures_view(r@) =~= signatures_view(s@));
    r
}

pub ghost struct EventView {
    pub identifier: Seq<u8>,
    pub changes: ChangesView,
    pub signatures: Seq<SignatureView>,
}

/// A signed change of a profile.
#[derive(Debug)]
pub struct ProfileChangeEvent {
    pub identifier: EventIdentifier,
    pub changes: Changes,
    pub signatures: Vec<Signature>,
}

impl View for ProfileChangeEvent {
    type V = EventView;

    open spec fn view(&self) -> EventView {
        EventView {
            identifier: self.identifier@,
            changes: self.changes@,
            signatures: signatures_view(self.signatures@),
        }
    }
}

pub open spec fn events_view(s: Seq<ProfileChangeEvent>) -> Seq<EventView> {
    s.map_values(|e: ProfileChangeEvent| e@)
}

impl ProfileChangeEvent {
    pub fn new(identifier: EventIdentifier, changes: Changes, signatures: Vec<Signature>) -> (e:
        ProfileChangeEvent)
        ensures
            e@ == (EventView {
                identifier: identifier@,
                changes: changes@,
                signatures: signatures_view(signatures@),
            }),
    {
        ProfileChangeEvent { identifier, changes, signatures }
    }

    /// The event's identifier.
    pub fn identifier(&self) -> (i: &EventIdentifier)
        ensures
            i@ == self@.identifier,
    {
        &self.identifier
    }

    /// The event's changes.
    pub fn changes(&self) -> (c: &Changes)
        ensures
            c@ == self@.changes,
    {
        &self.changes
    }

    /// A copy of the event.
    pub fn duplicate(&self) -> (e: ProfileChangeEvent)
        ensures
            e@ == self@,
    {
        ProfileChangeEvent {
            identifier: self.identifier,
            changes: self.changes.duplicate(),
            signatures: copy_signatures(&self.signatures),
        }
    }
}

/// A copy of a list of events.
pub fn copy_events(s: &[ProfileChangeEvent]) -> (r: Vec<ProfileChangeEvent>)
    ensures
        events_view(r@) == events_view(s@),
{
    let mut r: Vec<ProfileChangeEvent> = Vec::new();
    let mut i: usize = 0;
    while i < s.len()
        invariant
            i <= s@.len(),
            r@.len() == i,
            forall|j: int| 0 <= j < i ==> r@[j]@ == s@[j]@,
        decreases s@.len() - i,
    {
        r.push(s[i].duplicate());
        i = i + 1;
    }
    assert(events_view(r@) =~= events_view(s@));
    r
}

} // verus!
