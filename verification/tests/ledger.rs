//! Ledger behavior: capacity, eviction order, idempotent re-inserts.

use relay_storage_roots::pallet::{Origin, Pallet, Pays};
use relay_storage_roots::{Config, ValidationInput};

fn config(max: u32) -> Config {
    Config {
        max_storage_roots: max,
        set_relay_storage_root_weight: 40_000_000,
        db_read_weight: 25_000_000,
        db_write_weight: 100_000_000,
    }
}

fn insert(p: &mut Pallet, height: u32, root: [u8; 32]) {
    let vd = ValidationInput { relay_parent_number: height, relay_parent_storage_root: root };
    let r = p.set_relay_storage_root(Origin::Unsigned, vd);
    assert!(r.is_ok());
    assert_eq!(r.unwrap().pays_fee, Pays::No);
}

fn root_of(tag: u8) -> [u8; 32] {
    let mut r = [0u8; 32];
    r[0] = tag;
    r
}

#[test]
fn fills_up_to_capacity_then_evicts_oldest() {
    // Capacity 3; heights 1,2,3,4 with roots R1..R4 in order.
    let mut p = Pallet::new(config(3));
    let (r1, r2, r3, r4) = (root_of(1), root_of(2), root_of(3), root_of(4));

    insert(&mut p, 1, r1);
    assert_eq!(p.relay_storage_root_keys(), vec![1]);
    assert_eq!(p.relay_storage_root(1), Some(r1));

    insert(&mut p, 2, r2);
    assert_eq!(p.relay_storage_root_keys(), vec![1, 2]);

    insert(&mut p, 3, r3);
    assert_eq!(p.relay_storage_root_keys(), vec![1, 2, 3]);
    assert_eq!(p.relay_storage_root(1), Some(r1));
    assert_eq!(p.relay_storage_root(2), Some(r2));
    assert_eq!(p.relay_storage_root(3), Some(r3));

    insert(&mut p, 4, r4);
    // Height 1 was the oldest and is evicted from both structures.
    assert_eq!(p.relay_storage_root_keys(), vec![2, 3, 4]);
    assert_eq!(p.relay_storage_root(1), None);
    assert_eq!(p.relay_storage_root(2), Some(r2));
    assert_eq!(p.relay_storage_root(3), Some(r3));
    assert_eq!(p.relay_storage_root(4), Some(r4));
}

#[test]
fn capacity_counts_match_after_each_insert() {
    let mut p = Pallet::new(config(3));
    for (i, h) in [10u32, 20, 30, 40, 50].iter().enumerate() {
        insert(&mut p, *h, root_of(*h as u8));
        let expected = std::cmp::min(i + 1, 3);
        assert_eq!(p.relay_storage_root_keys().len(), expected);
    }
}

#[test]
fn reinsert_is_a_no_op_and_keeps_the_first_root() {
    let mut p = Pallet::new(config(3));
    let (r5, r5b) = (root_of(5), root_of(55));
    insert(&mut p, 5, r5);
    // A later block reports a different root for the same height: no-op.
    insert(&mut p, 5, r5b);
    assert_eq!(p.relay_storage_root(5), Some(r5));
    assert_eq!(p.relay_storage_root_keys(), vec![5]);
}

#[test]
fn eviction_follows_arrival_order_not_key_order() {
    // Heights arriving out of numeric order are still evicted oldest-arrival-first.
    let mut p = Pallet::new(config(2));
    insert(&mut p, 9, root_of(9));
    insert(&mut p, 4, root_of(4));
    insert(&mut p, 7, root_of(7));
    // Height 9 arrived first and leaves first, although 4 is the smallest key.
    assert_eq!(p.relay_storage_root_keys(), vec![4, 7]);
    assert_eq!(p.relay_storage_root(9), None);
    assert_eq!(p.relay_storage_root(4), Some(root_of(4)));
}

#[test]
fn capacity_one_keeps_only_the_newest() {
    let mut p = Pallet::new(config(1));
    insert(&mut p, 1, root_of(1));
    insert(&mut p, 2, root_of(2));
    assert_eq!(p.relay_storage_root_keys(), vec![2]);
    assert_eq!(p.relay_storage_root(1), None);
    assert_eq!(p.relay_storage_root(2), Some(root_of(2)));
}

#[test]
fn non_unsigned_origins_are_rejected_without_effect() {
    let mut p = Pallet::new(config(3));
    let vd = ValidationInput { relay_parent_number: 1, relay_parent_storage_root: root_of(1) };
    assert!(p.set_relay_storage_root(Origin::Signed, vd).is_err());
    assert!(p.set_relay_storage_root(Origin::Root, vd).is_err());
    assert!(!p.inherent_included());
    assert_eq!(p.relay_storage_root(1), None);
    assert!(p.relay_storage_root_keys().is_empty());
}

#[test]
fn lookup_of_never_recorded_height_is_absent() {
    let p = Pallet::new(config(3));
    assert_eq!(p.relay_storage_root(123), None);
}
