//! The drop/claim protocol's laws, stated over the abstract trap map and the
//! ticket resolution that the handlers' contracts are written in.

use vstd::prelude::*;
use crate::assets::{Asset, AssetBundle, asset_le_fn, canonical, lemma_asset_le_total};
use crate::fingerprint::trap_key;
use crate::location::{Junction, Location};
use crate::pallet::Pallet;
use crate::resolver::{VersionResolution, resolve_spec};
use crate::store::{peek_of, record_map, take_map};

verus! {

/// The trap map after dropping the same key `n` times in a row.
pub open spec fn record_k(m: Map<Seq<u8>, u32>, k: Seq<u8>, n: nat) -> Map<Seq<u8>, u32>
    decreases n,
{
    if n == 0 {
        m
    } else {
        record_map(record_k(m, k, (n - 1) as nat), k)
    }
}

/// The trap map after claiming the same key `n` times in a row.
pub open spec fn take_k(m: Map<Seq<u8>, u32>, k: Seq<u8>, n: nat) -> Map<Seq<u8>, u32>
    decreases n,
{
    if n == 0 {
        m
    } else {
        take_map(take_k(m, k, (n - 1) as nat), k)
    }
}

/// Dropping an absent key `n` times stores it with count exactly `n`.
proof fn lemma_record_k_inserts(m: Map<Seq<u8>, u32>, k: Seq<u8>, n: nat)
    requires
        !m.contains_key(k),
        1 <= n <= u32::MAX,
    ensures
        record_k(m, k, n) == m.insert(k, n as u32),
    decreases n,
{
    if n == 1 {
        assert(record_k(m, k, 0) == m);
        assert(record_k(m, k, 1) == record_map(m, k));
        assert(record_map(m, k) == m.insert(k, 1u32));
    } else {
        lemma_record_k_inserts(m, k, (n - 1) as nat);
        let prev = m.insert(k, (n - 1) as u32);
        assert(record_k(m, k, n) == record_map(prev, k));
        assert(record_map(prev, k) == prev.insert(k, n as u32));
        assert(prev.insert(k, n as u32) =~= m.insert(k, n as u32));
    }
}

/// Claiming `j` times out of a count of `n` leaves count `n - j`, and the
/// `n`-th claim removes the entry, restoring the original map.
proof fn lemma_take_k_steps(m: Map<Seq<u8>, u32>, k: Seq<u8>, n: nat, j: nat)
    requires
        !m.contains_key(k),
        1 <= n <= u32::MAX,
        j <= n,
    ensures
        j < n ==> take_k(m.insert(k, n as u32), k, j) == m.insert(k, (n - j) as u32),
        j == n ==> take_k(m.insert(k, n as u32), k, j) == m,
    decreases j,
{
    if j > 0 {
        lemma_take_k_steps(m, k, n, (j - 1) as nat);
        let prev = take_k(m.insert(k, n as u32), k, (j - 1) as nat);
        assert(prev == m.insert(k, (n - (j - 1)) as u32));
        let c = (n - (j - 1)) as u32;
        if c == 1 {
            assert(j == n);
            assert(take_map(prev, k) == prev.remove(k));
            assert(m.insert(k, 1u32).remove(k) =~= m);
        } else {
            assert(take_map(prev, k) == prev.insert(k, (c - 1) as u32));
            assert(prev.insert(k, (c - 1) as u32) =~= m.insert(k, (n - j) as u32));
        }
    }
}

/// Dropping a non-empty bundle and then claiming it back with the
/// "use current version" ticket succeeds, and undoes the drop exactly: the
/// ticket resolves to the version the drop encoded at, the dropped key is
/// present so the claim returns true, and taking it out returns the store to
/// its previous contents — in particular, a key that was absent before the
/// drop is absent again, removed rather than left at count 0.
///
/// The one excluded corner is a counter already saturated at `u32::MAX`,
/// where the drop cannot count any higher.
pub proof fn lemma_drop_then_claim(p: Pallet, origin: Location, ticket: Location, bundle: AssetBundle)
    requires
        p.wf(),
        ticket.parents == 0,
        ticket.interior@.len() == 0,
        bundle.assets@.len() > 0,
        peek_of(
            p.trap_map(),
            trap_key(
                origin.parents,
                origin.interior@,
                p.config.current_version,
                bundle.assets@,
            ),
        ) < u32::MAX,
    ensures
        ({
            let v = p.config.current_version;
            let k = trap_key(origin.parents, origin.interior@, v, bundle.assets@);
            let dropped = record_map(p.trap_map(), k);
            &&& p.config.claim_version(ticket) == Some(v)
            &&& dropped.contains_key(k)
            &&& take_map(dropped, k) == p.trap_map()
            &&& (!p.trap_map().contains_key(k) ==> !take_map(dropped, k).contains_key(k))
        }),
{
    let v = p.config.current_version;
    let k = trap_key(origin.parents, origin.interior@, v, bundle.assets@);
    let m = p.trap_map();
    let dropped = record_map(m, k);
    p.lemma_wf_map();
    assert(resolve_spec(ticket.parents, ticket.interior@) == VersionResolution::UseCurrent);
    if m.contains_key(k) {
        assert(dropped == m.insert(k, (m[k] + 1) as u32));
        assert(dropped[k] >= 2);
        assert(take_map(dropped, k) == dropped.insert(k, m[k]));
        assert(dropped.insert(k, m[k]) =~= m);
    } else {
        assert(dropped == m.insert(k, 1u32));
        assert(take_map(dropped, k) == dropped.remove(k));
        assert(dropped.remove(k) =~= m);
    }
}

/// Dropping the same key `n` times starting from a store where it is absent
/// and then claiming it over and over: each of the first `n` claims finds
/// the key (so each returns true), the `n`-th claim restores the original
/// store, and one more claim finds nothing (so it returns false).
pub proof fn lemma_k_drops_then_k_claims(m: Map<Seq<u8>, u32>, k: Seq<u8>, n: nat)
    requires
        !m.contains_key(k),
        1 <= n <= u32::MAX,
    ensures
        forall|j: nat|
            j < n ==> (#[trigger] take_k(record_k(m, k, n), k, j)).contains_key(k),
        take_k(record_k(m, k, n), k, n) == m,
        !take_k(record_k(m, k, n), k, n).contains_key(k),
{
    lemma_record_k_inserts(m, k, n);
    assert forall|j: nat|
        j < n implies (#[trigger] take_k(record_k(m, k, n), k, j)).contains_key(k) by {
        lemma_take_k_steps(m, k, n, j);
    }
    lemma_take_k_steps(m, k, n, n);
}

/// A ticket whose interior path has more than one element never resolves:
/// a claim with it fails and leaves the trap store untouched, whatever the
/// store holds.
pub proof fn lemma_long_ticket_rejected(
    p: Pallet,
    origin: Location,
    ticket: Location,
    bundle: AssetBundle,
)
    requires
        ticket.interior@.len() > 1,
    ensures
        resolve_spec(ticket.parents, ticket.interior@) == VersionResolution::Invalid,
        p.config.claim_version(ticket) is None,
        !p.claim_ok(origin, ticket, bundle.assets@),
        p.claim_map(origin, ticket, bundle.assets@) == p.trap_map(),
{
}

/// The bundle is an unordered collection: two bundles holding the same
/// descriptors, in whatever order, have the same fingerprint input, so
/// either one claims what the other dropped.
pub proof fn lemma_bundle_order_irrelevant(
    parents: u8,
    interior: Seq<Junction>,
    version: u32,
    s1: Seq<Asset>,
    s2: Seq<Asset>,
)
    requires
        s1.to_multiset() == s2.to_multiset(),
    ensures
        trap_key(parents, interior, version, s1) == trap_key(parents, interior, version, s2),
{
    lemma_asset_le_total();
    s1.lemma_sort_by_ensures(asset_le_fn());
    s2.lemma_sort_by_ensures(asset_le_fn());
    vstd::seq_lib::lemma_sorted_unique(canonical(s1), canonical(s2), asset_le_fn());
    assert(canonical(s1) == canonical(s2));
}

/// A fingerprint with no outstanding trap cannot be claimed: taking it is a
/// no-op and its count reads 0.
pub proof fn lemma_claim_absent(m: Map<Seq<u8>, u32>, k: Seq<u8>)
    requires
        !m.contains_key(k),
    ensures
        take_map(m, k) == m,
        peek_of(m, k) == 0,
{
}

} // verus!
