use asset_trap::assets::{Asset, AssetBundle};
use asset_trap::fingerprint::{fingerprint_for, Fingerprint};
use asset_trap::location::{Junction, Location};
use asset_trap::pallet::{Config, Event, Pallet, MAP_WRITE_COST};

fn config() -> Config {
    Config { current_version: 3, supported_versions: vec![2, 3] }
}

fn origin_a() -> Location {
    Location { parents: 0, interior: vec![Junction::Parachain(1000)] }
}

fn origin_b() -> Location {
    Location { parents: 0, interior: vec![Junction::Parachain(2000)] }
}

fn bundle_x() -> AssetBundle {
    AssetBundle { assets: vec![Asset { kind: 17, amount: 5 }] }
}

fn here_ticket() -> Location {
    Location { parents: 0, interior: Vec::new() }
}

fn version_ticket(v: u128) -> Location {
    Location { parents: 0, interior: vec![Junction::GeneralIndex(v)] }
}

fn current_fp(p: &Pallet, origin: &Location, bundle: &AssetBundle) -> Fingerprint {
    fingerprint_for(origin, p.config.current_version, bundle)
}

#[test]
fn drop_empty_bundle_is_free() {
    let mut p = Pallet::new(config());
    let origin = origin_a();
    let empty = AssetBundle { assets: Vec::new() };
    let cost = p.drop_assets(&origin, &empty);
    assert_eq!(cost, 0);
    assert_eq!(p.events().len(), 0);
    let fp = current_fp(&p, &origin, &empty);
    assert_eq!(p.asset_trap(&fp), 0);
}

#[test]
fn drop_then_claim_here() {
    let mut p = Pallet::new(config());
    let origin = origin_a();
    let bundle = bundle_x();
    let cost = p.drop_assets(&origin, &bundle);
    // 14 bytes of origin encoding plus 36 bytes of versioned bundle encoding.
    assert_eq!(cost, MAP_WRITE_COST + 50);
    let fp = current_fp(&p, &origin, &bundle);
    assert_eq!(p.asset_trap(&fp), 1);
    assert!(p.claim_assets(&origin, &here_ticket(), &bundle));
    assert_eq!(p.asset_trap(&fp), 0);
    assert!(!p.claim_assets(&origin, &here_ticket(), &bundle));
}

#[test]
fn repeated_drop_counts_and_counts_down() {
    let mut p = Pallet::new(config());
    let origin = origin_a();
    let bundle = bundle_x();
    p.drop_assets(&origin, &bundle);
    p.drop_assets(&origin, &bundle);
    let fp = current_fp(&p, &origin, &bundle);
    assert_eq!(p.asset_trap(&fp), 2);
    assert!(p.claim_assets(&origin, &here_ticket(), &bundle));
    assert_eq!(p.asset_trap(&fp), 1);
    assert!(p.claim_assets(&origin, &here_ticket(), &bundle));
    assert_eq!(p.asset_trap(&fp), 0);
    assert!(!p.claim_assets(&origin, &here_ticket(), &bundle));
}

#[test]
fn long_ticket_rejected() {
    let mut p = Pallet::new(config());
    let origin = origin_a();
    let bundle = bundle_x();
    p.drop_assets(&origin, &bundle);
    let long = Location {
        parents: 0,
        interior: vec![Junction::GeneralIndex(3), Junction::GeneralIndex(3)],
    };
    assert!(!p.claim_assets(&origin, &long, &bundle));
    let fp = current_fp(&p, &origin, &bundle);
    assert_eq!(p.asset_trap(&fp), 1);
}

#[test]
fn claim_never_dropped_fails() {
    let mut p = Pallet::new(config());
    let origin = origin_a();
    let bundle = bundle_x();
    let fp = current_fp(&p, &origin, &bundle);
    assert_eq!(p.asset_trap(&fp), 0);
    assert!(!p.claim_assets(&origin, &here_ticket(), &bundle));
    assert_eq!(p.asset_trap(&fp), 0);
    assert_eq!(p.events().len(), 0);
}

#[test]
fn explicit_current_version_ticket_succeeds() {
    let mut p = Pallet::new(config());
    let origin = origin_a();
    let bundle = bundle_x();
    p.drop_assets(&origin, &bundle);
    assert!(p.claim_assets(&origin, &version_ticket(3), &bundle));
}

#[test]
fn unsupported_version_ticket_fails() {
    let mut p = Pallet::new(config());
    let origin = origin_a();
    let bundle = bundle_x();
    p.drop_assets(&origin, &bundle);
    assert!(!p.claim_assets(&origin, &version_ticket(9), &bundle));
    let fp = current_fp(&p, &origin, &bundle);
    assert_eq!(p.asset_trap(&fp), 1);
}

#[test]
fn other_supported_version_does_not_match() {
    let mut p = Pallet::new(config());
    let origin = origin_a();
    let bundle = bundle_x();
    p.drop_assets(&origin, &bundle);
    // Version 2 is supported, but the assets were trapped under version 3,
    // so the fingerprints differ.
    assert!(!p.claim_assets(&origin, &version_ticket(2), &bundle));
    assert!(p.claim_assets(&origin, &version_ticket(3), &bundle));
}

#[test]
fn wrong_origin_cannot_claim() {
    let mut p = Pallet::new(config());
    let bundle = bundle_x();
    p.drop_assets(&origin_a(), &bundle);
    assert!(!p.claim_assets(&origin_b(), &here_ticket(), &bundle));
    assert!(p.claim_assets(&origin_a(), &here_ticket(), &bundle));
}

#[test]
fn parent_ticket_rejected() {
    let mut p = Pallet::new(config());
    let origin = origin_a();
    let bundle = bundle_x();
    p.drop_assets(&origin, &bundle);
    let parent = Location { parents: 1, interior: Vec::new() };
    assert!(!p.claim_assets(&origin, &parent, &bundle));
    let fp = current_fp(&p, &origin, &bundle);
    assert_eq!(p.asset_trap(&fp), 1);
}

#[test]
fn events_report_both_sides() {
    let mut p = Pallet::new(config());
    let origin = origin_a();
    let bundle = bundle_x();
    p.drop_assets(&origin, &bundle);
    let fp = current_fp(&p, &origin, &bundle);
    assert!(p.claim_assets(&origin, &here_ticket(), &bundle));
    assert_eq!(p.events().len(), 2);
    match &p.events()[0] {
        Event::AssetsTrapped { fingerprint, origin: o, assets } => {
            assert!(fingerprint.same_as(&fp));
            assert_eq!(o.parents, 0);
            assert_eq!(assets.version, 3);
            assert_eq!(assets.bundle.assets.len(), 1);
        },
        _ => panic!("expected a trapped event"),
    }
    match &p.events()[1] {
        Event::AssetsClaimed { fingerprint, .. } => {
            assert!(fingerprint.same_as(&fp));
        },
        _ => panic!("expected a claimed event"),
    }
}

#[test]
fn bundle_order_does_not_matter() {
    let mut p = Pallet::new(config());
    let origin = origin_a();
    let forward = AssetBundle {
        assets: vec![Asset { kind: 1, amount: 10 }, Asset { kind: 2, amount: 20 }],
    };
    let backward = AssetBundle {
        assets: vec![Asset { kind: 2, amount: 20 }, Asset { kind: 1, amount: 10 }],
    };
    p.drop_assets(&origin, &forward);
    assert!(p.claim_assets(&origin, &here_ticket(), &backward));
    assert!(!p.claim_assets(&origin, &here_ticket(), &forward));
}
