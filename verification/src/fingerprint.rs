//! Content fingerprints: the 256-bit digest that keys the trap store.

use vstd::prelude::*;
use crate::assets::{Asset, AssetBundle, canonical, canonical_bundle, encode_versioned, push_versioned};
use crate::location::{Junction, Location, encode_location, push_location};

verus! {

/// The digest that `blake2_256` returns for the given input bytes. The digest
/// is a function of those bytes alone, so naming it is sound; nothing else is
/// assumed of it.
pub uninterp spec fn blake2_of(data: Seq<u8>) -> Seq<u8>;

/// A 256-bit digest identifying one (origin, versioned bundle) pair.
#[derive(Clone, Copy)]
pub struct Fingerprint {
    pub bytes: [u8; 32],
}

impl View for Fingerprint {
    type V = Seq<u8>;

    open spec fn view(&self) -> Seq<u8> {
        self.bytes@
    }
}

/// Relies on `sp_crypto_hashing::blake2_256`: the 32-byte blake2b digest of
/// the input bytes, determined by those bytes alone.
#[verifier::external_body]
pub(crate) fn blake2_256_digest(data: &Vec<u8>) -> (r: [u8; 32])
    ensures
        r@ == blake2_of(data@),
{
    sp_crypto_hashing::blake2_256(data.as_slice())
}

/// The bytes that are hashed to key a trap: the canonical encoding of the
/// origin followed by the canonical encoding of the version-tagged bundle,
/// whose descriptors are first put in canonical order.
pub open spec fn trap_input(
    parents: u8,
    interior: Seq<Junction>,
    version: u32,
    assets: Seq<Asset>,
) -> Seq<u8> {
    encode_location(parents, interior) + encode_versioned(version, canonical(assets))
}

/// The trap-store key of an (origin, versioned bundle) pair.
pub open spec fn trap_key(
    parents: u8,
    interior: Seq<Junction>,
    version: u32,
    assets: Seq<Asset>,
) -> Seq<u8> {
    blake2_of(trap_input(parents, interior, version, assets))
}

/// The canonical fingerprint input for `origin` and `bundle` read under
/// `version`.
pub fn encode_trap_input(origin: &Location, version: u32, bundle: &AssetBundle) -> (r: Vec<u8>)
    ensures
        r@ == trap_input(origin.parents, origin.interior@, version, bundle.assets@),
{
    let ordered = canonical_bundle(bundle);
    let mut buf: Vec<u8> = Vec::new();
    push_location(&mut buf, origin);
    push_versioned(&mut buf, version, &ordered);
    proof {
        assert(Seq::<u8>::empty() + encode_location(origin.parents, origin.interior@)
            + encode_versioned(version, canonical(bundle.assets@))
            =~= trap_input(origin.parents, origin.interior@, version, bundle.assets@));
    }
    buf
}

/// The fingerprint of `origin` and `bundle` read under `version`.
pub fn fingerprint_for(origin: &Location, version: u32, bundle: &AssetBundle) -> (r: Fingerprint)
    ensures
        r@ == trap_key(origin.parents, origin.interior@, version, bundle.assets@),
{
    let buf = encode_trap_input(origin, version, bundle);
    Fingerprint { bytes: blake2_256_digest(&buf) }
}

impl Fingerprint {
    /// Whether two fingerprints hold the same digest bytes.
    pub fn same_as(&self, other: &Fingerprint) -> (r: bool)
        ensures
            r <==> self@ == other@,
    {
        let mut i: usize = 0;
        while i < 32
            invariant
                i <= 32,
                forall|j: int| 0 <= j < i ==> self.bytes@[j] == other.bytes@[j],
            decreases 32 - i,
        {
            if self.bytes[i] != other.bytes[i] {
                return false;
            }
            i = i + 1;
        }
        proof {
            assert(self.bytes@ =~= other.bytes@);
        }
        true
    }
}

} // verus!
