//! Block lifecycle: the mandatory-inclusion guard and the hook weights.

use relay_storage_roots::inherent::InherentError;
use relay_storage_roots::pallet::{DispatchClass, Origin, Pallet};
use relay_storage_roots::{Config, ValidationInput};

fn config(max: u32) -> Config {
    Config {
        max_storage_roots: max,
        set_relay_storage_root_weight: 40_000_000,
        db_read_weight: 25_000_000,
        db_write_weight: 100_000_000,
    }
}

#[test]
fn block_with_the_update_finalizes_and_clears_the_guard() {
    // A block executes the update once at height 10 and finalizes.
    let mut p = Pallet::new(config(3));
    let vd = ValidationInput { relay_parent_number: 10, relay_parent_storage_root: [1u8; 32] };
    assert!(p.set_relay_storage_root(Origin::Unsigned, vd).is_ok());
    assert!(p.inherent_included());
    assert!(p.on_finalize(1).is_ok());
    // Queried afterwards, the guard reads cleared.
    assert!(!p.inherent_included());
    // The recorded root survives finalization.
    assert_eq!(p.relay_storage_root(10), Some([1u8; 32]));
}

#[test]
fn block_without_the_update_fails_finalization() {
    let mut p = Pallet::new(config(3));
    let r = p.on_finalize(1);
    assert!(r.is_err());
    let InherentError::Other(msg) = r.unwrap_err();
    assert_eq!(msg, "Mandatory relay storage roots inherent not included");
}

#[test]
fn guard_is_consumed_so_the_next_block_must_update_again() {
    let mut p = Pallet::new(config(3));
    let vd = ValidationInput { relay_parent_number: 10, relay_parent_storage_root: [1u8; 32] };
    assert!(p.set_relay_storage_root(Origin::Unsigned, vd).is_ok());
    assert!(p.on_finalize(1).is_ok());
    // The next block omits the update: finalization fails again.
    assert!(p.on_finalize(2).is_err());
}

#[test]
fn reinsert_in_a_later_block_still_sets_the_guard() {
    let mut p = Pallet::new(config(3));
    let vd = ValidationInput { relay_parent_number: 10, relay_parent_storage_root: [1u8; 32] };
    assert!(p.set_relay_storage_root(Origin::Unsigned, vd).is_ok());
    assert!(p.on_finalize(1).is_ok());
    // Same height reported again: the ledger is untouched but the block is valid.
    let vd2 = ValidationInput { relay_parent_number: 10, relay_parent_storage_root: [2u8; 32] };
    assert!(p.set_relay_storage_root(Origin::Unsigned, vd2).is_ok());
    assert!(p.on_finalize(2).is_ok());
    assert_eq!(p.relay_storage_root(10), Some([1u8; 32]));
}

#[test]
fn worst_case_fill_reaches_full_capacity() {
    let mut p = Pallet::new(config(3));
    p.fill_relay_storage_roots([9u8; 32]);
    assert_eq!(p.relay_storage_root_keys(), vec![0, 1, 2]);
    assert!(p.inherent_included());
    assert_eq!(p.relay_storage_root(0), Some([9u8; 32]));
    // The next update works against a full ledger and evicts the oldest.
    let vd = ValidationInput { relay_parent_number: 1000, relay_parent_storage_root: [2u8; 32] };
    assert!(p.set_relay_storage_root(Origin::Unsigned, vd).is_ok());
    assert_eq!(p.relay_storage_root_keys(), vec![1, 2, 1000]);
    assert_eq!(p.relay_storage_root(0), None);
}

#[test]
fn the_update_operation_is_declared_mandatory() {
    let p = Pallet::new(config(3));
    let (weight, class) = p.set_relay_storage_root_dispatch_info();
    assert_eq!(weight, 40_000_000);
    assert_eq!(class, DispatchClass::Mandatory);
}

#[test]
fn on_initialize_reports_one_read_and_one_write() {
    let p = Pallet::new(config(3));
    assert_eq!(p.on_initialize(7), 125_000_000);
}

#[test]
fn on_initialize_saturates_on_huge_weights() {
    let p = Pallet::new(Config {
        max_storage_roots: 3,
        set_relay_storage_root_weight: 40_000_000,
        db_read_weight: u64::MAX,
        db_write_weight: u64::MAX,
    });
    assert_eq!(p.on_initialize(7), u64::MAX);
}
