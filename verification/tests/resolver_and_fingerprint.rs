use asset_trap::assets::{Asset, AssetBundle};
use asset_trap::fingerprint::fingerprint_for;
use asset_trap::location::{Junction, Location};
use asset_trap::resolver::{resolve, VersionResolution};

fn ticket(parents: u8, interior: Vec<Junction>) -> Location {
    Location { parents, interior }
}

#[test]
fn root_ticket_means_current() {
    assert_eq!(resolve(&ticket(0, Vec::new())), VersionResolution::UseCurrent);
}

#[test]
fn single_index_ticket_means_that_version() {
    assert_eq!(
        resolve(&ticket(0, vec![Junction::GeneralIndex(5)])),
        VersionResolution::UseVersion(5)
    );
}

#[test]
fn index_ticket_is_read_modulo_version_width() {
    assert_eq!(
        resolve(&ticket(0, vec![Junction::GeneralIndex(0x1_0000_0003)])),
        VersionResolution::UseVersion(3)
    );
}

#[test]
fn parented_ticket_is_invalid() {
    assert_eq!(resolve(&ticket(1, Vec::new())), VersionResolution::Invalid);
    assert_eq!(
        resolve(&ticket(1, vec![Junction::GeneralIndex(2)])),
        VersionResolution::Invalid
    );
}

#[test]
fn wrong_junction_kind_is_invalid() {
    assert_eq!(
        resolve(&ticket(0, vec![Junction::Parachain(2)])),
        VersionResolution::Invalid
    );
    assert_eq!(
        resolve(&ticket(0, vec![Junction::PalletInstance(2)])),
        VersionResolution::Invalid
    );
}

#[test]
fn two_element_ticket_is_invalid() {
    assert_eq!(
        resolve(&ticket(0, vec![Junction::GeneralIndex(2), Junction::GeneralIndex(2)])),
        VersionResolution::Invalid
    );
}

#[test]
fn fingerprint_changes_with_every_input() {
    let origin = Location { parents: 0, interior: vec![Junction::Parachain(1)] };
    let other_origin = Location { parents: 0, interior: vec![Junction::Parachain(2)] };
    let bundle = AssetBundle { assets: vec![Asset { kind: 1, amount: 5 }] };
    let other_bundle = AssetBundle { assets: vec![Asset { kind: 1, amount: 6 }] };
    let base = fingerprint_for(&origin, 3, &bundle);
    assert!(base.same_as(&fingerprint_for(&origin, 3, &bundle)));
    assert!(!base.same_as(&fingerprint_for(&other_origin, 3, &bundle)));
    assert!(!base.same_as(&fingerprint_for(&origin, 2, &bundle)));
    assert!(!base.same_as(&fingerprint_for(&origin, 3, &other_bundle)));
}
