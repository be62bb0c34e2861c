//! The binary form of a set of changes, whose SHA-256 digest identifies an event.
//! It follows the BARE layout: fields in order, lists and maps prefixed by their
//! length as a variable-length integer, enum variants by their index.
use vstd::prelude::*;
use vstd::utf8::encode_utf8;

use crate::bare::{bare_data, bare_uint, push_data, uvarint};
use crate::change::{
    ChangeTypeView, Changes, ChangesView, KeyChangeView, ProfileChange, ProfileChangeType,
    ProfileChangeView, ProfileEventAttributes, attributes_view, changes_list_view,
};
use crate::authentication::{lemma_proof_round_trip, proof_signature};
use crate::error::OckamError;

verus! {

pub open spec fn encode_string(s: Seq<char>) -> Seq<u8> {
    bare_data(encode_utf8(s))
}

pub open spec fn encode_attribute_entries(a: Seq<(Seq<char>, Seq<char>)>) -> Seq<u8>
    decreases a.len(),
{
    if a.len() == 0 {
        Seq::empty()
    } else {
        encode_attribute_entries(a.drop_last()) + encode_string(a.last().0) + encode_string(
            a.last().1,
        )
    }
}

pub open spec fn encode_attributes(a: Seq<(Seq<char>, Seq<char>)>) -> Seq<u8> {
    uvarint(a.len()) + encode_attribute_entries(a)
}

pub open spec fn encode_key_change(k: KeyChangeView) -> Seq<u8> {
    encode_string(k.label) + bare_data(k.public_key)
}

pub open spec fn encode_change_type(t: ChangeTypeView) -> Seq<u8> {
    match t {
        ChangeTypeView::CreateKey(k) => uvarint(0) + encode_key_change(k),
        ChangeTypeView::RotateKey(k) => uvarint(1) + encode_key_change(k),
    }
}

pub open spec fn encode_change(c: ProfileChangeView) -> Seq<u8> {
    seq![c.version] + encode_attributes(c.attributes) + encode_change_type(c.change_type)
}

pub open spec fn encode_change_list(s: Seq<ProfileChangeView>) -> Seq<u8>
    decreases s.len(),
{
    if s.len() == 0 {
        Seq::empty()
    } else {
        encode_change_list(s.drop_last()) + encode_change(s.last())
    }
}

/// The binary form of a set of changes: the previous event's identifier, then the
/// list of changes.
pub open spec fn encode_changes(c: ChangesView) -> Seq<u8> {
    c.prev_event_id + uvarint(c.data.len()) + encode_change_list(c.data)
}

fn push_uint(out: &mut Vec<u8>, n: usize) -> (r: Result<(), OckamError>)
    ensures
        r is Ok,
        final(out)@ == old(out)@ + uvarint(n as nat),
{
    match bare_uint(n as u64) {
        Ok(mut b) => {
            out.append(&mut b);
            Ok(())
        },
        Err(_) => Err(OckamError::BareError),
    }
}

fn push_bytes(out: &mut Vec<u8>, data: &[u8]) -> (r: Result<(), OckamError>)
    ensures
        r is Ok,
        final(out)@ == old(out)@ + bare_data(data@),
{
    match push_data(out, data) {
        Ok(()) => Ok(()),
        Err(_) => Err(OckamError::BareError),
    }
}

fn push_string(out: &mut Vec<u8>, s: &String) -> (r: Result<(), OckamError>)
    ensures
        r is Ok,
        final(out)@ == old(out)@ + encode_string(s@),
{
    push_bytes(out, s.as_str().as_bytes())
}

fn push_attributes(out: &mut Vec<u8>, attributes: &ProfileEventAttributes) -> (r: Result<(), OckamError>)
    ensures
        r is Ok,
        final(out)@ == old(out)@ + encode_attributes(attributes@),
{
    let ghost start = out@;
    let a = attributes.entries();
    let ghost av = attributes@;
    push_uint(out, a.len())?;
    let mut i: usize = 0;
    while i < a.len()
        invariant
            i <= a@.len(),
            av == attributes_view(a@),
            out@ == start + uvarint(a@.len() as nat) + encode_attribute_entries(
                av.subrange(0, i as int),
            ),
        decreases a@.len() - i,
    {
        let (k, v) = &a[i];
        push_string(out, k)?;
        push_string(out, v)?;
        proof {
            assert(av.subrange(0, i + 1).drop_last() =~= av.subrange(0, i as int));
        }
        i = i + 1;
    }
    assert(av.subrange(0, a@.len() as int) =~= av);
    Ok(())
}

fn push_change(out: &mut Vec<u8>, c: &ProfileChange) -> (r: Result<(), OckamError>)
    ensures
        r is Ok,
        final(out)@ == old(out)@ + encode_change(c@),
{
    let ghost start = out@;
    out.push(c.version);
    push_attributes(out, &c.attributes)?;
    match &c.change_type {
        ProfileChangeType::CreateKey(k) => {
            push_uint(out, 0)?;
            push_string(out, &k.key_attributes.label)?;
            push_bytes(out, k.public_key.as_slice())?;
        },
        ProfileChangeType::RotateKey(k) => {
            push_uint(out, 1)?;
            push_string(out, &k.key_attributes.label)?;
            push_bytes(out, k.public_key.as_slice())?;
        },
    }
    assert(out@ =~= start + encode_change(c@));
    Ok(())
}

/// The binary form of a set of changes, framed from BARE pieces.
pub fn encode_changes_binary(c: &Changes) -> (r: Result<Vec<u8>, OckamError>)
    ensures
        r is Ok,
        r matches Ok(b) ==> b@ == encode_changes(c@),
{
    let mut out: Vec<u8> = Vec::new();
    let ghost dv = changes_list_view(c.data@);
    let id = c.prev_event_id.as_slice();
    let mut j: usize = 0;
    while j < id.len()
        invariant
            j <= id@.len(),
            out@ == id@.subrange(0, j as int),
        decreases id@.len() - j,
    {
        out.push(id[j]);
        j = j + 1;
    }
    assert(id@.subrange(0, id@.len() as int) =~= id@);
    push_uint(&mut out, c.data.len())?;
    let mut i: usize = 0;
    while i < c.data.len()
        invariant
            i <= c.data@.len(),
            dv == changes_list_view(c.data@),
            out@ == c.prev_event_id@ + uvarint(c.data@.len() as nat) + encode_change_list(
                dv.subrange(0, i as int),
            ),
        decreases c.data@.len() - i,
    {
        push_change(&mut out, &c.data[i])?;
        proof {
            assert(dv.subrange(0, i + 1).drop_last() =~= dv.subrange(0, i as int));
        }
        i = i + 1;
    }
    assert(dv.subrange(0, c.data@.len() as int) =~= dv);
    Ok(out)
}

/// A string is written as the number of its UTF-8 bytes, as a variable-length
/// integer, followed by those bytes, as a BARE string is: reading the length back and
/// taking that many bytes gives exactly the string's UTF-8 bytes, whatever follows.
pub proof fn lemma_string_framed_by_byte_length(s: Seq<char>, rest: Seq<u8>)
    requires
        encode_utf8(s).len() < 0x1_0000_0000_0000_0000,
    ensures
        encode_string(s) == uvarint(encode_utf8(s).len()) + encode_utf8(s),
        proof_signature(encode_string(s) + rest) == Some(encode_utf8(s)),
{
    lemma_proof_round_trip(encode_utf8(s), rest);
}

} // verus!
