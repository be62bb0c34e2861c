//! The pieces of the BARE encoding (https://baremessages.org) that the library frames
//! its binary forms from.
use vstd::prelude::*;

verus! {

/// The error type of `serde_bare` (`serde_bare::error::Error`), carried through
/// unread: nothing is claimed of its values.
#[verifier::external_type_specification]
#[verifier::external_body]
pub struct ExBareError(serde_bare::error::Error);

/// The BARE variable-length encoding of an unsigned integer: seven bits per byte,
/// least significant group first, the high bit set on every byte but the last.
pub open spec fn uvarint(x: nat) -> Seq<u8>
    decreases x,
{
    if x < 128 {
        seq![x as u8]
    } else {
        seq![(x % 128 + 128) as u8] + uvarint(x / 128)
    }
}

/// The BARE encoding of a byte string (`data`): its length as a `uint`, then its bytes.
/// A BARE `string` has the same layout, over the string's UTF-8 bytes.
pub open spec fn bare_data(b: Seq<u8>) -> Seq<u8> {
    uvarint(b.len()) + b
}

/// Serializes `serde_bare::Uint(n)` with `serde_bare::to_vec`.
/// Claimed of the outside code: the call succeeds (the serializer writes into a
/// vector, whose writes never fail) and yields the variable-length encoding of `n`.
#[verifier::external_body]
pub(crate) fn bare_uint(n: u64) -> (r: Result<Vec<u8>, serde_bare::error::Error>)
    ensures
        r is Ok,
        r matches Ok(b) ==> b@ == uvarint(n as nat),
{
    serde_bare::to_vec(&serde_bare::Uint(n))
}

/// Append the BARE encoding of a byte string: its length, then its bytes.
pub(crate) fn push_data(out: &mut Vec<u8>, data: &[u8]) -> (r: Result<(), serde_bare::error::Error>)
    ensures
        r is Ok,
        final(out)@ == old(out)@ + bare_data(data@),
{
    let mut len = bare_uint(data.len() as u64)?;
    out.append(&mut len);
    let ghost start = out@;
    let mut i: usize = 0;
    while i < data.len()
        invariant
            i <= data@.len(),
            out@ == start + data@.subrange(0, i as int),
        decreases data@.len() - i,
    {
        out.push(data[i]);
        assert(data@.subrange(0, i + 1) =~= data@.subrange(0, i as int).push(data@[i as int]));
        i = i + 1;
    }
    assert(data@.subrange(0, data@.len() as int) =~= data@);
    Ok(())
}

} // verus!
