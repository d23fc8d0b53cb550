//! The asset-trap pallet: the drop/claim protocol over the counted trap
//! store, with its host-supplied configuration and its outbound events.

use vstd::prelude::*;
use crate::assets::{Asset, AssetBundle, VersionedBundle, canonical, canonical_bundle};
use crate::fingerprint::{Fingerprint, blake2_256_digest, encode_trap_input, trap_input, trap_key};
use crate::location::{Location, clone_location};
use crate::resolver::{VersionResolution, resolve, resolve_spec};
use crate::store::{TrapStore, map_wf, peek_of, record_map, take_map};

verus! {

/// The cost charged for the one storage write of a trap, before the
/// per-byte hashing cost is added.
pub const MAP_WRITE_COST: u64 = 100_000;

/// What the host supplies: the version that bundles are currently encoded
/// at, and the set of encoding versions a claim may ask for.
pub struct Config {
    pub current_version: u32,
    pub supported_versions: Vec<u32>,
}

impl Config {
    /// Whether a claim may ask for encoding version `v`.
    pub open spec fn supports_spec(self, v: u32) -> bool {
        self.supported_versions@.contains(v)
    }

    /// Which encoding version a ticket resolves to under this configuration:
    /// the root shape means the current version, a sole general index means
    /// that version if it is supported, and anything else resolves to
    /// nothing.
    pub open spec fn claim_version(self, ticket: Location) -> Option<u32> {
        match resolve_spec(ticket.parents, ticket.interior@) {
            VersionResolution::UseCurrent => Some(self.current_version),
            VersionResolution::UseVersion(v) => if self.supports_spec(v) {
                Some(v)
            } else {
                None
            },
            VersionResolution::Invalid => None,
        }
    }

    /// Whether `v` is in the supported version set.
    pub fn supports(&self, v: u32) -> (r: bool)
        ensures
            r == self.supports_spec(v),
    {
        let mut i: usize = 0;
        while i < self.supported_versions.len()
            invariant
                i <= self.supported_versions@.len(),
                forall|j: int| 0 <= j < i ==> self.supported_versions@[j] != v,
            decreases self.supported_versions@.len() - i,
        {
            if self.supported_versions[i] == v {
                return true;
            }
            i = i + 1;
        }
        false
    }
}

/// What the pallet reports to the host's observability layer.
pub enum Event {
    /// Assets were left behind and recorded under `fingerprint`.
    AssetsTrapped { fingerprint: Fingerprint, origin: Location, assets: VersionedBundle },
    /// A recorded trap was claimed back.
    AssetsClaimed { fingerprint: Fingerprint, origin: Location, assets: VersionedBundle },
}

/// Whether `e` is the trapped event for key `k`, origin `origin`, and the
/// bundle `assets` read at `version`.
pub open spec fn is_trapped_event(
    e: Event,
    k: Seq<u8>,
    origin: Location,
    version: u32,
    assets: Seq<Asset>,
) -> bool {
    match e {
        Event::AssetsTrapped { fingerprint, origin: o, assets: vb } => {
            &&& fingerprint@ == k
            &&& o.parents == origin.parents
            &&& o.interior@ == origin.interior@
            &&& vb.version == version
            &&& vb.bundle.assets@ == assets
        },
        _ => false,
    }
}

/// Whether `e` is the claimed event for key `k`, origin `origin`, and the
/// bundle `assets` read at `version`.
pub open spec fn is_claimed_event(
    e: Event,
    k: Seq<u8>,
    origin: Location,
    version: u32,
    assets: Seq<Asset>,
) -> bool {
    match e {
        Event::AssetsClaimed { fingerprint, origin: o, assets: vb } => {
            &&& fingerprint@ == k
            &&& o.parents == origin.parents
            &&& o.interior@ == origin.interior@
            &&& vb.version == version
            &&& vb.bundle.assets@ == assets
        },
        _ => false,
    }
}

/// The cost of one drop: one storage write plus hashing work, one unit per
/// byte of the fingerprint input, saturating at the largest cost.
pub open spec fn drop_cost(nbytes: nat) -> u64 {
    if MAP_WRITE_COST + nbytes <= u64::MAX {
        (MAP_WRITE_COST + nbytes) as u64
    } else {
        u64::MAX
    }
}

/// The asset-trap core: configuration, the counted trap store, and the
/// events reported so far.
#[verifier::ext_equal]
pub struct Pallet {
    pub config: Config,
    pub store: TrapStore,
    pub events: Vec<Event>,
}

impl Pallet {
    /// The abstract trap store: fingerprint bytes to outstanding count.
    pub open spec fn trap_map(self) -> Map<Seq<u8>, u32> {
        self.store.as_map()
    }

    /// The events reported so far, oldest first.
    pub open spec fn events_seq(self) -> Seq<Event> {
        self.events@
    }

    /// The store's internal invariant holds.
    pub open spec fn wf(self) -> bool {
        self.store.wf()
    }

    /// Whether a claim with these arguments succeeds on this state: the
    /// ticket must resolve to an available version, and the fingerprint of
    /// (origin, bundle at that version) must be trapped.
    pub open spec fn claim_ok(self, origin: Location, ticket: Location, assets: Seq<Asset>) -> bool {
        match self.config.claim_version(ticket) {
            Some(v) => self.trap_map().contains_key(
                trap_key(origin.parents, origin.interior@, v, assets),
            ),
            None => false,
        }
    }

    /// The trap store after a claim with these arguments: one occurrence
    /// taken out on success, untouched on failure.
    pub open spec fn claim_map(self, origin: Location, ticket: Location, assets: Seq<Asset>) -> Map<
        Seq<u8>,
        u32,
    > {
        match self.config.claim_version(ticket) {
            Some(v) => take_map(
                self.trap_map(),
                trap_key(origin.parents, origin.interior@, v, assets),
            ),
            None => self.trap_map(),
        }
    }

    /// Every count in the abstract trap store is at least 1.
    pub proof fn lemma_wf_map(self)
        requires
            self.wf(),
        ensures
            map_wf(self.trap_map()),
    {
        self.store.lemma_view();
    }

    /// A fresh pallet: nothing trapped, nothing reported.
    pub fn new(config: Config) -> (r: Pallet)
        ensures
            r.wf(),
            r.config == config,
            r.trap_map() == Map::<Seq<u8>, u32>::empty(),
            r.events_seq() == Seq::<Event>::empty(),
    {
        Pallet { config, store: TrapStore::new(), events: Vec::new() }
    }

    /// The events reported so far.
    pub fn events(&self) -> (r: &Vec<Event>)
        ensures
            r@ == self.events_seq(),
    {
        &self.events
    }

    /// The number of outstanding traps under `fp`, 0 if none.
    pub fn asset_trap(&self, fp: &Fingerprint) -> (r: u32)
        requires
            self.wf(),
        ensures
            r == peek_of(self.trap_map(), fp@),
    {
        self.store.peek(fp)
    }

    /// Called by the executor with the assets an incoming message left
    /// behind. An empty bundle is a free no-op; otherwise the bundle is
    /// encoded at the current version, the fingerprint of (origin, versioned
    /// bundle) is recorded once more in the trap store, a trapped event is
    /// reported, and the cost of the storage write plus hashing is returned.
    pub fn drop_assets(&mut self, origin: &Location, assets: &AssetBundle) -> (cost: u64)
        requires
            old(self).wf(),
        ensures
            final(self).wf(),
            final(self).config == old(self).config,
            assets.assets@.len() == 0 ==> cost == 0 && *final(self) == *old(self),
            assets.assets@.len() > 0 ==> ({
                let v = old(self).config.current_version;
                let k = trap_key(origin.parents, origin.interior@, v, assets.assets@);
                &&& final(self).trap_map() == record_map(old(self).trap_map(), k)
                &&& final(self).events_seq().len() == old(self).events_seq().len() + 1
                &&& final(self).events_seq().drop_last() == old(self).events_seq()
                &&& is_trapped_event(
                    final(self).events_seq().last(),
                    k,
                    *origin,
                    v,
                    canonical(assets.assets@),
                )
                &&& cost == drop_cost(
                    trap_input(origin.parents, origin.interior@, v, assets.assets@).len(),
                )
                &&& cost >= MAP_WRITE_COST
            }),
    {
        if assets.is_empty() {
            return 0;
        }
        let version = self.config.current_version;
        let buf = encode_trap_input(origin, version, assets);
        let cost = weigh_drop(buf.len());
        let fp = Fingerprint { bytes: blake2_256_digest(&buf) };
        self.store.record(&fp);
        let ev = Event::AssetsTrapped {
            fingerprint: fp,
            origin: clone_location(origin),
            assets: VersionedBundle { version, bundle: canonical_bundle(assets) },
        };
        self.events.push(ev);
        proof {
            assert(old(self).events@.push(ev).drop_last() =~= old(self).events@);
        }
        cost
    }

    /// Called by the executor to hand trapped assets back. The ticket must
    /// resolve to an encoding version; the claim succeeds exactly when the
    /// fingerprint of (origin, bundle at that version) has an outstanding
    /// trap, in which case one occurrence is taken out of the store and a
    /// claimed event is reported. Every failure leaves the pallet untouched.
    pub fn claim_assets(&mut self, origin: &Location, ticket: &Location, assets: &AssetBundle) -> (r:
        bool)
        requires
            old(self).wf(),
        ensures
            final(self).wf(),
            final(self).config == old(self).config,
            r == old(self).claim_ok(*origin, *ticket, assets.assets@),
            final(self).trap_map() == old(self).claim_map(*origin, *ticket, assets.assets@),
            !r ==> *final(self) == *old(self),
            r ==> ({
                &&& final(self).events_seq().len() == old(self).events_seq().len() + 1
                &&& final(self).events_seq().drop_last() == old(self).events_seq()
                &&& match old(self).config.claim_version(*ticket) {
                    Some(v) => is_claimed_event(
                        final(self).events_seq().last(),
                        trap_key(origin.parents, origin.interior@, v, assets.assets@),
                        *origin,
                        v,
                        canonical(assets.assets@),
                    ),
                    None => false,
                }
            }),
    {
        let res = resolve(ticket);
        let version: u32;
        match res {
            VersionResolution::UseCurrent => {
                version = self.config.current_version;
            },
            VersionResolution::UseVersion(v) => {
                if !self.config.supports(v) {
                    return false;
                }
                version = v;
            },
            VersionResolution::Invalid => {
                return false;
            },
        }
        let buf = encode_trap_input(origin, version, assets);
        let fp = Fingerprint { bytes: blake2_256_digest(&buf) };
        let ok = self.store.take(&fp);
        if ok {
            let ev = Event::AssetsClaimed {
                fingerprint: fp,
                origin: clone_location(origin),
                assets: VersionedBundle { version, bundle: canonical_bundle(assets) },
            };
            self.events.push(ev);
            proof {
                assert(old(self).events@.push(ev).drop_last() =~= old(self).events@);
            }
            true
        } else {
            proof {
                assert(*self =~= *old(self));
            }
            false
        }
    }
}

/// The cost of a drop whose fingerprint input is `nbytes` long.
fn weigh_drop(nbytes: usize) -> (r: u64)
    ensures
        r == drop_cost(nbytes as nat),
        r >= MAP_WRITE_COST,
{
    let nb = nbytes as u64;
    if nb <= u64::MAX - MAP_WRITE_COST {
        MAP_WRITE_COST + nb
    } else {
        u64::MAX
    }
}

} // verus!
