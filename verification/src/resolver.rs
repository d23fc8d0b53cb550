//! Ticket resolution: reading a location-shaped ticket as a choice of
//! bundle-encoding version.

use vstd::prelude::*;
use crate::location::{Junction, Location};

verus! {

/// What a claim ticket asks for.
#[derive(Clone, Copy, PartialEq, Eq, Structural, Debug)]
pub enum VersionResolution {
    /// The root shape: encode the bundle at the current version.
    UseCurrent,
    /// A single general-index junction: encode the bundle at that version.
    UseVersion(u32),
    /// Any other shape.
    Invalid,
}

/// How a ticket resolves. Only two shapes are accepted: the root shape with
/// no parents and no interior, and a sole general index with no parents; the
/// index is read modulo 2^32, as a version number. Everything else is
/// invalid.
pub open spec fn resolve_spec(parents: u8, interior: Seq<Junction>) -> VersionResolution {
    if parents == 0 && interior.len() == 0 {
        VersionResolution::UseCurrent
    } else if parents == 0 && interior.len() == 1 {
        match interior[0] {
            Junction::GeneralIndex(i) => VersionResolution::UseVersion((i % 0x1_0000_0000) as u32),
            _ => VersionResolution::Invalid,
        }
    } else {
        VersionResolution::Invalid
    }
}

/// Resolves a ticket to a version choice, purely; an invalid ticket touches
/// nothing.
pub fn resolve(ticket: &Location) -> (r: VersionResolution)
    ensures
        r == resolve_spec(ticket.parents, ticket.interior@),
{
    if ticket.parents != 0 {
        return VersionResolution::Invalid;
    }
    if ticket.interior.len() == 0 {
        VersionResolution::UseCurrent
    } else if ticket.interior.len() == 1 {
        match ticket.interior[0] {
            Junction::GeneralIndex(i) => VersionResolution::UseVersion((i % 0x1_0000_0000) as u32),
            _ => VersionResolution::Invalid,
        }
    } else {
        VersionResolution::Invalid
    }
}

} // verus!
