//! Locations: where a message came from, and the shape of a claim ticket.

use vstd::prelude::*;
use crate::encode::{enc_u8, enc_u32, enc_u128, enc_len, push_u8, push_u32, push_u128, push_len};

verus! {

/// One step of an interior path inside a location.
#[derive(Clone, Copy)]
pub enum Junction {
    Parachain(u32),
    PalletInstance(u8),
    GeneralIndex(u128),
}

/// An origin or ticket value: a number of parent hops up, then a path of
/// junctions down.
pub struct Location {
    pub parents: u8,
    pub interior: Vec<Junction>,
}

/// Canonical bytes of one junction: a variant tag, then the fixed-width
/// payload.
pub open spec fn encode_junction(j: Junction) -> Seq<u8> {
    match j {
        Junction::Parachain(x) => seq![0u8] + enc_u32(x),
        Junction::PalletInstance(x) => seq![1u8] + enc_u8(x),
        Junction::GeneralIndex(x) => seq![2u8] + enc_u128(x),
    }
}

/// Canonical bytes of a junction path, in order.
pub open spec fn encode_junctions(js: Seq<Junction>) -> Seq<u8>
    decreases js.len(),
{
    if js.len() == 0 {
        Seq::empty()
    } else {
        encode_junctions(js.drop_last()) + encode_junction(js.last())
    }
}

/// Canonical bytes of a whole location: parents, path length, then the path.
pub open spec fn encode_location(parents: u8, interior: Seq<Junction>) -> Seq<u8> {
    enc_u8(parents) + enc_len(interior.len()) + encode_junctions(interior)
}

/// Appends the canonical bytes of one junction.
pub fn push_junction(out: &mut Vec<u8>, j: &Junction)
    ensures
        final(out)@ == old(out)@ + encode_junction(*j),
{
    match j {
        Junction::Parachain(x) => {
            out.push(0u8);
            push_u32(out, *x);
            proof {
                assert(old(out)@.push(0u8) + enc_u32(*x)
                    =~= old(out)@ + (seq![0u8] + enc_u32(*x)));
            }
        },
        Junction::PalletInstance(x) => {
            out.push(1u8);
            push_u8(out, *x);
            proof {
                assert(old(out)@.push(1u8) + enc_u8(*x)
                    =~= old(out)@ + (seq![1u8] + enc_u8(*x)));
            }
        },
        Junction::GeneralIndex(x) => {
            out.push(2u8);
            push_u128(out, *x);
            proof {
                assert(old(out)@.push(2u8) + enc_u128(*x)
                    =~= old(out)@ + (seq![2u8] + enc_u128(*x)));
            }
        },
    }
}

/// Appends the canonical bytes of a junction path.
pub fn push_junctions(out: &mut Vec<u8>, js: &Vec<Junction>)
    ensures
        final(out)@ == old(out)@ + encode_junctions(js@),
{
    let mut i: usize = 0;
    while i < js.len()
        invariant
            i <= js@.len(),
            out@ == old(out)@ + encode_junctions(js@.take(i as int)),
        decreases js@.len() - i,
    {
        let ghost prefix = js@.take(i as int);
        push_junction(out, &js[i]);
        proof {
            assert(js@.take(i + 1).drop_last() =~= prefix);
            assert(js@.take(i + 1).last() == js@[i as int]);
            assert(old(out)@ + encode_junctions(prefix) + encode_junction(js@[i as int])
                =~= old(out)@ + encode_junctions(js@.take(i + 1)));
        }
        i = i + 1;
    }
    proof {
        assert(js@.take(js@.len() as int) =~= js@);
    }
}

/// Appends the canonical bytes of a whole location.
pub fn push_location(out: &mut Vec<u8>, loc: &Location)
    ensures
        final(out)@ == old(out)@ + encode_location(loc.parents, loc.interior@),
{
    push_u8(out, loc.parents);
    push_len(out, loc.interior.len());
    push_junctions(out, &loc.interior);
    proof {
        assert(old(out)@ + enc_u8(loc.parents) + enc_len(loc.interior@.len())
            + encode_junctions(loc.interior@)
            =~= old(out)@ + encode_location(loc.parents, loc.interior@));
    }
}

/// A copy of `loc` with the same parents and the same junction path.
pub fn clone_location(loc: &Location) -> (r: Location)
    ensures
        r.parents == loc.parents,
        r.interior@ == loc.interior@,
{
    let mut interior: Vec<Junction> = Vec::new();
    let mut i: usize = 0;
    while i < loc.interior.len()
        invariant
            i <= loc.interior@.len(),
            interior@ == loc.interior@.take(i as int),
        decreases loc.interior@.len() - i,
    {
        interior.push(loc.interior[i]);
        proof {
            assert(loc.interior@.take(i as int).push(loc.interior@[i as int])
                =~= loc.interior@.take(i + 1));
        }
        i = i + 1;
    }
    proof {
        assert(loc.interior@.take(loc.interior@.len() as int) =~= loc.interior@);
    }
    Location { parents: loc.parents, interior }
}

} // verus!
