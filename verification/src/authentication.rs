//! Proofs of possession of a profile: a signature of the channel state by the
//! profile's root key, framed as a BARE `data` value.
use vstd::prelude::*;

use crate::bare::{bare_data, push_data, uvarint};
use crate::error::{CoreError, OckamError};
use crate::vault::{ProfileVault, PublicKey, Secret, copy_bytes};
use crate::vault_model::vault_step;

verus! {

pub open spec fn pow128(i: nat) -> nat
    decreases i,
{
    if i == 0 {
        1
    } else {
        128 * pow128((i - 1) as nat)
    }
}

/// Reading a BARE variable-length integer from position `i` of `b`, with `acc` the
/// value of the bytes before it: the value and the position after it, or `None` when
/// the bytes end first or the integer would exceed 64 bits.
pub open spec fn uvarint_decode(b: Seq<u8>, i: nat, acc: nat) -> Option<(nat, nat)>
    decreases 10 - i,
{
    if i >= b.len() || i > 9 {
        None
    } else if i == 9 && b[i as int] > 1 {
        None
    } else if b[i as int] < 128 {
        Some((acc + (b[i as int] as nat) * pow128(i), i + 1))
    } else {
        uvarint_decode(b, i + 1, acc + ((b[i as int] - 128) as nat) * pow128(i))
    }
}

/// The signature that a proof holds: its length as a variable-length integer, then
/// that many bytes; bytes after them are ignored.
pub open spec fn proof_signature(proof: Seq<u8>) -> Option<Seq<u8>> {
    match uvarint_decode(proof, 0, 0) {
        None => None,
        Some(p) => if p.1 + p.0 <= proof.len() {
            Some(proof.subrange(p.1 as int, (p.1 + p.0) as int))
        } else {
            None
        },
    }
}

proof fn lemma_pow128_bounds(i: nat)
    requires
        i <= 9,
    ensures
        pow128(i) <= 0x8000_0000_0000_0000,
        pow128(i) > 0,
        i <= 8 ==> pow128(i) <= 0x0100_0000_0000_0000,
        i == 9 ==> pow128(i) == 0x8000_0000_0000_0000,
    decreases i,
{
    reveal_with_fuel(pow128, 10);
    assert(pow128(8) == 0x0100_0000_0000_0000);
    assert(pow128(9) == 0x8000_0000_0000_0000);
    if 0 < i <= 8 {
        lemma_pow128_bounds((i - 1) as nat);
        lemma_pow128_monotone(i, 8);
    }
}

proof fn lemma_pow128_monotone(i: nat, j: nat)
    requires
        i <= j,
    ensures
        pow128(i) <= pow128(j),
        pow128(i) > 0,
    decreases j,
{
    if j > 0 {
        if i < j {
            lemma_pow128_monotone(i, (j - 1) as nat);
        } else {
            lemma_pow128_monotone((i - 1) as nat, (j - 1) as nat);
        }
    }
}

/// Read a variable-length integer at the start of `b`: its value and length.
fn read_uvarint(b: &[u8]) -> (r: Option<(u64, usize)>)
    ensures
        match uvarint_decode(b@, 0, 0) {
            None => r is None,
            Some(p) => r matches Some(q) && q.0 as nat == p.0 && q.1 as nat == p.1,
        },
{
    let mut i: usize = 0;
    let mut acc: u64 = 0;
    let mut mult: u64 = 1;
    while i < b.len() && i <= 9
        invariant
            i <= 9,
            mult as nat == pow128(i as nat),
            acc < mult,
            uvarint_decode(b@, 0, 0) == uvarint_decode(b@, i as nat, acc as nat),
        decreases 10 - i,
    {
        proof { lemma_pow128_bounds(i as nat); }
        let byte = b[i];
        if i == 9 && byte > 1 {
            return None;
        }
        if byte < 128 {
            assert(acc + byte * mult < 0x1_0000_0000_0000_0000) by (nonlinear_arith)
                requires
                    acc < mult,
                    mult <= 0x8000_0000_0000_0000,
                    i <= 9,
                    i == 9 ==> byte <= 1,
                    i < 9 ==> mult <= 0x0100_0000_0000_0000,
                    byte < 128,
            ;
            let v = acc + (byte as u64) * mult;
            return Some((v, i + 1));
        }
        assert(i < 9);
        assert(acc + (byte - 128) * mult < mult * 128) by (nonlinear_arith)
            requires
                acc < mult,
                byte >= 128,
        ;
        assert(mult * 128 <= 0x8000_0000_0000_0000) by (nonlinear_arith)
            requires
                mult <= 0x0100_0000_0000_0000,
        ;
        acc = acc + ((byte - 128) as u64) * mult;
        mult = mult * 128;
        i = i + 1;
    }
    None
}

/// The signature that a proof holds.
pub fn decode_proof(proof: &[u8]) -> (r: Result<Vec<u8>, OckamError>)
    ensures
        match proof_signature(proof@) {
            Some(s) => r matches Ok(v) && v@ == s,
            None => r == Err::<Vec<u8>, OckamError>(OckamError::BareError),
        },
{
    match read_uvarint(proof) {
        None => Err(OckamError::BareError),
        Some((len, start)) => {
            if len as u128 + start as u128 > proof.len() as u128 {
                return Err(OckamError::BareError);
            }
            let end = start + len as usize;
            let s = vstd::slice::slice_subrange(proof, start, end);
            Ok(copy_bytes(s))
        },
    }
}

/// The proof that holds a signature.
pub fn encode_proof(signature: &[u8]) -> (r: Result<Vec<u8>, OckamError>)
    ensures
        r matches Ok(v) && v@ == bare_data(signature@),
{
    let mut out: Vec<u8> = Vec::new();
    match push_data(&mut out, signature) {
        Ok(()) => {
            assert(out@ =~= bare_data(signature@));
            Ok(out)
        },
        Err(_) => Err(OckamError::BareError),
    }
}

/// Generate a proof of possession of `secret`: the vault's signature of
/// `channel_state` with it, framed as BARE data. Fails exactly when the vault
/// refuses to sign, with the vault's error.
pub fn generate_proof<V: ProfileVault>(channel_state: &[u8], secret: &Secret, vault: &mut V) -> (r:
    Result<Vec<u8>, CoreError>)
    ensures
        r matches Ok(p) ==> exists|sig: Vec<u8>|
            {
                &&& #[trigger] old(vault).sign_result(*secret, channel_state@, Ok(sig), *final(vault))
                &&& p@ == bare_data(sig@)
                &&& proof_signature(p@) == Some(sig@)
            },
        r matches Err(e) ==> old(vault).sign_result(*secret, channel_state@, Err(e), *final(vault)),
        vault_step(*old(vault), *final(vault)),
{
    let signature = vault.sign(secret, channel_state)?;
    match encode_proof(signature.as_slice()) {
        Ok(p) => {
            assert(signature@.len() == signature.len());
            proof { lemma_proof_round_trip(signature@, Seq::empty()); }
            assert(p@ + Seq::<u8>::empty() =~= p@);
            Ok(p)
        },
        Err(e) => Err(CoreError::Ockam(e)),
    }
}

/// Whether `vault` answers the request to verify `signature` of `data` under
/// `public_key`, leaving the vault as `after`.
pub open spec fn verification_answered<V: ProfileVault>(
    vault: V,
    signature: Seq<u8>,
    public_key: Seq<u8>,
    data: Seq<u8>,
    after: V,
) -> bool {
    exists|res: Result<(), CoreError>| #[trigger] vault.verify_result(signature, public_key, data, res, after)
}

/// Verify a proof of possession: whether the signature it holds is, by the vault's
/// verification, a valid signature of `channel_state` under `public_key`. A proof
/// that holds no signature is an error.
pub fn verify_proof<V: ProfileVault>(
    channel_state: &[u8],
    public_key: &PublicKey,
    proof: &[u8],
    vault: &mut V,
) -> (r: Result<bool, CoreError>)
    ensures
        proof_signature(proof@) is None ==> r == Err::<bool, CoreError>(
            CoreError::Ockam(OckamError::BareError),
        ),
        proof_signature(proof@) matches Some(s) ==> r == Ok::<bool, CoreError>(
            V::verifies(s, public_key@, channel_state@),
        ),
        proof_signature(proof@) is None ==> *final(vault) == *old(vault),
        proof_signature(proof@) matches Some(s) ==> verification_answered::<V>(
            *old(vault),
            s,
            public_key@,
            channel_state@,
            *final(vault),
        ),
        proof_signature(proof@) is Some ==> vault_step(*old(vault), *final(vault)),
{
    let signature = match decode_proof(proof) {
        Ok(s) => s,
        Err(e) => return Err(CoreError::Ockam(e)),
    };
    let verified = vault.verify(signature.as_slice(), public_key.as_slice(), channel_state);
    Ok(verified.is_ok())
}

// ---------------------------------------------------------------------------
// The encoding of a signature is read back as the same signature.
// ---------------------------------------------------------------------------

proof fn lemma_uvarint_decode(s: Seq<u8>, i: nat, acc: nat, m: nat, rest: Seq<u8>)
    requires
        i <= 9,
        s.len() == i + uvarint(m).len() + rest.len(),
        s.subrange(i as int, s.len() as int) == uvarint(m) + rest,
        m * pow128(i) < 0x1_0000_0000_0000_0000,
    ensures
        uvarint_decode(s, i, acc) == Some((acc + m * pow128(i), i + uvarint(m).len())),
    decreases m,
{
    lemma_pow128_bounds(i);
    let t = s.subrange(i as int, s.len() as int);
    assert(s[i as int] == t[0]);
    if m < 128 {
        assert(uvarint(m) == seq![m as u8]);
        assert(t[0] == m as u8);
        if i == 9 {
            assert(m <= 1) by (nonlinear_arith)
                requires
                    m * pow128(i) < 0x1_0000_0000_0000_0000,
                    pow128(i) == 0x8000_0000_0000_0000,
            ;
        }
    } else {
        assert(uvarint(m) == seq![(m % 128 + 128) as u8] + uvarint(m / 128));
        assert(t[0] == (m % 128 + 128) as u8);
        assert(i < 9) by {
            if i == 9 {
                assert(m * pow128(i) >= 128 * 0x8000_0000_0000_0000) by (nonlinear_arith)
                    requires
                        m >= 128,
                        pow128(i) == 0x8000_0000_0000_0000,
                ;
            }
        }
        let m2 = m / 128;
        assert(pow128(i + 1) == 128 * pow128(i));
        assert(m2 * pow128(i + 1) <= m * pow128(i)) by (nonlinear_arith)
            requires
                m2 == m / 128,
                pow128(i + 1) == 128 * pow128(i),
        ;
        assert(t =~= seq![(m % 128 + 128) as u8] + (uvarint(m2) + rest));
        assert(s.subrange((i + 1) as int, s.len() as int) =~= t.subrange(1, t.len() as int));
        assert(t.subrange(1, t.len() as int) =~= uvarint(m2) + rest);
        lemma_uvarint_decode(s, i + 1, acc + (m % 128) * pow128(i), m2, rest);
        assert(acc + (m % 128) * pow128(i) + m2 * pow128(i + 1) == acc + m * pow128(i)) by (nonlinear_arith)
            requires
                m2 == m / 128,
                pow128(i + 1) == 128 * pow128(i),
        ;
    }
}

/// A proof framed from a signature holds that signature, whatever follows it.
pub proof fn lemma_proof_round_trip(signature: Seq<u8>, rest: Seq<u8>)
    requires
        signature.len() < 0x1_0000_0000_0000_0000,
    ensures
        proof_signature(bare_data(signature) + rest) == Some(signature),
{
    let m = signature.len();
    let s = bare_data(signature) + rest;
    let tail = signature + rest;
    assert(s =~= uvarint(m) + tail);
    assert(s.subrange(0, s.len() as int) =~= uvarint(m) + tail);
    assert(pow128(0) == 1);
    lemma_uvarint_decode(s, 0, 0, m, tail);
    assert(uvarint_decode(s, 0, 0) == Some((m, uvarint(m).len())));
    assert(s.subrange(uvarint(m).len() as int, (uvarint(m).len() + m) as int) =~= signature);
}

} // verus!
