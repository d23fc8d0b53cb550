//! Asset-trap core of a cross-chain message executor.
//!
//! When message execution leaves assets behind that no instruction claimed,
//! the runtime records the unclaimed bundle under a content fingerprint of
//! (sending origin, versioned bundle), counting repeated occurrences. A later
//! message may present a ticket that resolves to the same fingerprint to
//! reclaim the held assets, once per recorded occurrence.

pub mod assets;
pub mod encode;
pub mod fingerprint;
pub mod laws;
pub mod location;
pub mod pallet;
pub mod resolver;
pub mod store;
