//! Asset bundles and their version-tagged canonical encoding.

use vstd::prelude::*;
use crate::encode::{enc_u32, enc_u64, enc_u128, enc_len, push_u32, push_u64, push_u128, push_len};

verus! {

/// One asset descriptor: a kind of asset and a quantity of it.
#[derive(Clone, Copy)]
pub struct Asset {
    pub kind: u64,
    pub amount: u128,
}

/// A bundle of asset descriptors, as handed over by the executor.
pub struct AssetBundle {
    pub assets: Vec<Asset>,
}

/// A bundle tagged with the encoding version it is to be read under.
pub struct VersionedBundle {
    pub version: u32,
    pub bundle: AssetBundle,
}

/// Canonical bytes of one asset descriptor.
pub open spec fn encode_asset(a: Asset) -> Seq<u8> {
    enc_u64(a.kind) + enc_u128(a.amount)
}

/// Canonical bytes of a run of asset descriptors, in order.
pub open spec fn encode_assets(s: Seq<Asset>) -> Seq<u8>
    decreases s.len(),
{
    if s.len() == 0 {
        Seq::empty()
    } else {
        encode_assets(s.drop_last()) + encode_asset(s.last())
    }
}

/// Canonical bytes of a bundle: its length, then its descriptors.
pub open spec fn encode_bundle(s: Seq<Asset>) -> Seq<u8> {
    enc_len(s.len()) + encode_assets(s)
}

/// Canonical bytes of a version-tagged bundle: the version, then the bundle.
/// Two bundles are fingerprint-equal only if these bytes are identical, so a
/// bundle encoded under two versions never collides with itself.
pub open spec fn encode_versioned(version: u32, s: Seq<Asset>) -> Seq<u8> {
    enc_u32(version) + encode_bundle(s)
}

impl AssetBundle {
    /// Whether the bundle holds no assets at all.
    pub fn is_empty(&self) -> (r: bool)
        ensures
            r <==> self.assets@.len() == 0,
    {
        self.assets.len() == 0
    }
}

/// Appends the canonical bytes of one asset descriptor.
pub fn push_asset(out: &mut Vec<u8>, a: &Asset)
    ensures
        final(out)@ == old(out)@ + encode_asset(*a),
{
    push_u64(out, a.kind);
    push_u128(out, a.amount);
    proof {
        assert(old(out)@ + enc_u64(a.kind) + enc_u128(a.amount)
            =~= old(out)@ + encode_asset(*a));
    }
}

/// Appends the canonical bytes of a version-tagged bundle.
pub fn push_versioned(out: &mut Vec<u8>, version: u32, bundle: &AssetBundle)
    ensures
        final(out)@ == old(out)@ + encode_versioned(version, bundle.assets@),
{
    push_u32(out, version);
    push_len(out, bundle.assets.len());
    let ghost header = old(out)@ + enc_u32(version) + enc_len(bundle.assets@.len());
    let mut i: usize = 0;
    while i < bundle.assets.len()
        invariant
            i <= bundle.assets@.len(),
            out@ == header + encode_assets(bundle.assets@.take(i as int)),
        decreases bundle.assets@.len() - i,
    {
        let ghost prefix = bundle.assets@.take(i as int);
        push_asset(out, &bundle.assets[i]);
        proof {
            assert(bundle.assets@.take(i + 1).drop_last() =~= prefix);
            assert(bundle.assets@.take(i + 1).last() == bundle.assets@[i as int]);
            assert(header + encode_assets(prefix) + encode_asset(bundle.assets@[i as int])
                =~= header + encode_assets(bundle.assets@.take(i + 1)));
        }
        i = i + 1;
    }
    proof {
        assert(bundle.assets@.take(bundle.assets@.len() as int) =~= bundle.assets@);
        assert(header + encode_assets(bundle.assets@)
            =~= old(out)@ + encode_versioned(version, bundle.assets@));
    }
}

/// The order that canonicalizes a bundle: by kind, then by amount.
pub open spec fn asset_le(a: Asset, b: Asset) -> bool {
    a.kind < b.kind || (a.kind == b.kind && a.amount <= b.amount)
}

/// The canonical order as a relation value, so every use names the same
/// function.
pub open spec fn asset_le_fn() -> spec_fn(Asset, Asset) -> bool {
    |a: Asset, b: Asset| asset_le(a, b)
}

/// The canonical form of a bundle: its descriptors in ascending order. The
/// bundle is an unordered collection, so its fingerprint input is built from
/// this form, never from the order the descriptors happened to arrive in.
pub open spec fn canonical(s: Seq<Asset>) -> Seq<Asset> {
    s.sort_by(asset_le_fn())
}

/// The canonical order is a total order.
pub proof fn lemma_asset_le_total()
    ensures
        vstd::relations::total_ordering(asset_le_fn()),
{
    let le = asset_le_fn();
    assert forall|a: Asset, b: Asset| #[trigger] le(a, b) && #[trigger] le(b, a) implies a == b by {
        assert(a.kind == b.kind && a.amount == b.amount);
    }
    assert(vstd::relations::reflexive(le));
    assert(vstd::relations::antisymmetric(le));
    assert(vstd::relations::transitive(le));
    assert(vstd::relations::strongly_connected(le));
}

/// Whether `a` comes no later than `b` in the canonical order.
fn asset_le_exec(a: &Asset, b: &Asset) -> (r: bool)
    ensures
        r == asset_le(*a, *b),
{
    a.kind < b.kind || (a.kind == b.kind && a.amount <= b.amount)
}

/// The canonical form of `bundle`: the same descriptors, in ascending order.
pub fn canonical_bundle(bundle: &AssetBundle) -> (r: AssetBundle)
    ensures
        r.assets@ == canonical(bundle.assets@),
{
    let mut out: Vec<Asset> = Vec::new();
    proof {
        assert(bundle.assets@.take(0) =~= out@);
    }
    let mut i: usize = 0;
    while i < bundle.assets.len()
        invariant
            i <= bundle.assets@.len(),
            forall|p: int, q: int|
                0 <= p < q < out@.len() ==> asset_le(#[trigger] out@[p], #[trigger] out@[q]),
            out@.to_multiset() == bundle.assets@.take(i as int).to_multiset(),
        decreases bundle.assets@.len() - i,
    {
        let a = bundle.assets[i];
        let mut j: usize = 0;
        while j < out.len() && asset_le_exec(&out[j], &a)
            invariant
                j <= out@.len(),
                forall|p: int| 0 <= p < j ==> asset_le(#[trigger] out@[p], a),
            decreases out@.len() - j,
        {
            j = j + 1;
        }
        let ghost prev = out@;
        out.insert(j, a);
        proof {
            broadcast use vstd::seq_lib::group_to_multiset_ensures;
            broadcast use vstd::multiset::group_multiset_axioms;

            let jj = j as int;
            assert forall|p: int, q: int|
                0 <= p < q < out@.len() implies asset_le(
                #[trigger] out@[p],
                #[trigger] out@[q],
            ) by {
                if q < jj {
                    assert(out@[p] == prev[p] && out@[q] == prev[q]);
                } else if q == jj {
                    assert(out@[p] == prev[p] && out@[q] == a);
                } else if p < jj {
                    assert(out@[p] == prev[p] && out@[q] == prev[q - 1]);
                    assert(asset_le(prev[p], prev[q - 1]));
                } else if p == jj {
                    assert(out@[p] == a && out@[q] == prev[q - 1]);
                    assert(!asset_le(prev[jj], a));
                    if q - 1 > jj {
                        assert(asset_le(prev[jj], prev[q - 1]));
                    }
                } else {
                    assert(out@[p] == prev[p - 1] && out@[q] == prev[q - 1]);
                    assert(asset_le(prev[p - 1], prev[q - 1]));
                }
            }
            assert(out@.remove(jj) =~= prev);
            assert(out@[jj] == a);
            assert(out@.remove(jj).to_multiset() == out@.to_multiset().remove(a));
            assert(out@.to_multiset().contains(a)) by {
                assert(out@.contains(a));
            }
            assert(out@.to_multiset() =~= prev.to_multiset().insert(a));
            assert(bundle.assets@.take(i as int).push(a) =~= bundle.assets@.take(i + 1));
            assert(bundle.assets@.take(i as int).push(a).to_multiset()
                == bundle.assets@.take(i as int).to_multiset().insert(a));
        }
        i = i + 1;
    }
    proof {
        assert(bundle.assets@.take(bundle.assets@.len() as int) =~= bundle.assets@);
        lemma_asset_le_total();
        bundle.assets@.lemma_sort_by_ensures(asset_le_fn());
        assert(vstd::relations::sorted_by(out@, asset_le_fn())) by {
            assert forall|p: int, q: int|
                0 <= p < q < out@.len() implies #[trigger] (asset_le_fn()(
                out@[p],
                out@[q],
            )) by {
                assert(asset_le(out@[p], out@[q]));
            }
        }
        vstd::seq_lib::lemma_sorted_unique(out@, canonical(bundle.assets@), asset_le_fn());
        assert(out@ == canonical(bundle.assets@));
    }
    AssetBundle { assets: out }
}

} // verus!
