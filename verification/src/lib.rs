//! A bounded, append-and-evict ledger of relay-chain storage roots.
//!
//! Once per block, the pallet records the storage root that the relay chain
//! reported as valid for a given relay block height. At most
//! `max_storage_roots` entries are kept; when a new height would exceed that
//! capacity, the single oldest entry (by arrival order, not by key order) is
//! evicted. Existing entries are never overwritten. A per-block inclusion
//! guard makes the recording operation mandatory: a block that finalizes
//! without having executed it is invalid.

use vstd::prelude::*;

pub mod inherent;
pub mod ledger;
pub mod pallet;
pub mod scale;

verus! {

/// A relay-chain block number.
pub type RelayBlockNumber = u32;

/// A 32-byte storage root digest.
pub type Hash256 = [u8; 32];

/// Deployment-time configuration, immutable at runtime.
///
/// `max_storage_roots` bounds how many storage roots the ledger keeps; it is
/// a positive integer. `set_relay_storage_root_weight` is the cost table's
/// declared estimate for the update operation. The two database weight
/// fields are the declared cost of one read and one write, used by the
/// block-start hook to report the fixed cost estimate of the finalization
/// check.
#[derive(Clone, Copy, PartialEq, Eq, Structural, Debug)]
pub struct Config {
    pub max_storage_roots: u32,
    pub set_relay_storage_root_weight: u64,
    pub db_read_weight: u64,
    pub db_write_weight: u64,
}

/// The per-block validation data handed in by the external provider:
/// the relay parent's block number and the storage root it reported.
#[derive(Clone, Copy, Debug)]
pub struct ValidationInput {
    pub relay_parent_number: RelayBlockNumber,
    pub relay_parent_storage_root: Hash256,
}

} // verus!
