use vstd::prelude::*;

use crate::error::OckamError;
use crate::vault::KeyId;

verus! {

broadcast use vstd::array::group_array_axioms;

/// The identifier of a profile: the identifier of its root public key.
#[derive(Debug, Clone)]
pub struct ProfileIdentifier {
    pub id: KeyId,
}

impl View for ProfileIdentifier {
    type V = Seq<char>;

    open spec fn view(&self) -> Seq<char> {
        self.id@
    }
}

impl ProfileIdentifier {
    /// The profile identifier made of a key identifier.
    pub fn from_key_id(key_id: KeyId) -> (r: ProfileIdentifier)
        ensures
            r@ == key_id@,
    {
        ProfileIdentifier { id: key_id }
    }

    /// The key identifier that this profile identifier is made of.
    pub fn key_id(&self) -> (r: &KeyId)
        ensures
            r@ == self@,
    {
        &self.id
    }

    /// A copy of the identifier.
    pub fn duplicate(&self) -> (r: ProfileIdentifier)
        ensures
            r@ == self@,
    {
        ProfileIdentifier { id: self.id.clone() }
    }

    /// Whether two identifiers are equal.
    pub fn same_as(&self, other: &ProfileIdentifier) -> (r: bool)
        ensures
            r == (self@ == other@),
    {
        self.id == other.id
    }

    /// Check that this identifier is the one made of the identifier of the root key.
    pub fn check_root_key_id(&self, root_key_id: KeyId) -> (r: Result<(), OckamError>)
        ensures
            r == (if root_key_id@ == self@ {
                Ok::<(), OckamError>(())
            } else {
                Err(OckamError::ProfileIdDoesntMatch)
            }),
    {
        let profile_id = ProfileIdentifier::from_key_id(root_key_id);
        if profile_id.same_as(self) {
            Ok(())
        } else {
            Err(OckamError::ProfileIdDoesntMatch)
        }
    }
}

impl PartialEq for ProfileIdentifier {
    fn eq(&self, other: &Self) -> (r: bool) {
        self.id == other.id
    }
}

impl Eq for ProfileIdentifier {

}

impl vstd::std_specs::cmp::PartialEqSpecImpl for ProfileIdentifier {
    open spec fn obeys_eq_spec() -> bool {
        true
    }

    open spec fn eq_spec(&self, other: &Self) -> bool {
        self.id@ == other.id@
    }
}

/// The identifier of a change event: the SHA-256 digest of its encoded changes.
#[derive(Debug, Clone, Copy)]
pub struct EventIdentifier {
    pub hash: [u8; 32],
}

impl View for EventIdentifier {
    type V = Seq<u8>;

    open spec fn view(&self) -> Seq<u8> {
        self.hash@
    }
}

impl EventIdentifier {
    /// The event identifier made of a digest.
    pub fn from_hash(hash: [u8; 32]) -> (r: EventIdentifier)
        ensures
            r@ == hash@,
    {
        EventIdentifier { hash }
    }

    /// The identifier's bytes.
    pub fn as_slice(&self) -> (r: &[u8])
        ensures
            r@ == self@,
            r@.len() == 32,
    {
        self.hash.as_slice()
    }

    /// Whether two identifiers are equal.
    pub fn same_as(&self, other: &EventIdentifier) -> (r: bool)
        ensures
            r == (self@ == other@),
    {
        crate::vault::bytes_eq(self.as_slice(), other.as_slice())
    }
}

} // verus!
