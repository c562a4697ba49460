use nft_core::gate::{copy_bytes, is_authorized, validate_length, validate_royalty};
use nft_core::store::{Key, Table};
use nft_core::{Config, Error, Pallet, Principal, NULL_ACCOUNT, ROYALTY_BOUND};

#[test]
fn protocol_is_always_authorized() {
    assert!(is_authorized(Principal::Protocol, None));
    assert!(is_authorized(Principal::Protocol, Some(1)));
}

#[test]
fn account_is_authorized_only_as_the_required_account() {
    assert!(is_authorized(Principal::Account(1), Some(1)));
    assert!(!is_authorized(Principal::Account(1), Some(2)));
    assert!(!is_authorized(Principal::Account(1), None));
    // a signer that is the null account stands where the protocol created
    assert!(is_authorized(Principal::Account(NULL_ACCOUNT), Some(NULL_ACCOUNT)));
}

#[test]
fn resolve_prefers_the_protocol() {
    assert_eq!(Principal::resolve(true, None), Some(Principal::Protocol));
    assert_eq!(Principal::resolve(true, Some(4)), Some(Principal::Protocol));
    assert_eq!(Principal::resolve(false, Some(4)), Some(Principal::Account(4)));
    assert_eq!(Principal::resolve(false, None), None);
}

#[test]
fn principal_account() {
    assert_eq!(Principal::Protocol.account(), NULL_ACCOUNT);
    assert_eq!(Principal::Protocol.account(), 0);
    assert_eq!(Principal::Account(42).account(), 42);
}

#[test]
fn validate_length_bounds() {
    assert_eq!(validate_length(&vec![], 0), Ok(()));
    assert_eq!(validate_length(&vec![1], 0), Err(Error::MetadataTooLong));
    assert_eq!(validate_length(&vec![1; 10], 10), Ok(()));
    assert_eq!(validate_length(&vec![1; 11], 10), Err(Error::MetadataTooLong));
    assert_eq!(validate_length(&vec![1; 9], 10), Ok(()));
}

#[test]
fn validate_royalty_bounds() {
    assert_eq!(ROYALTY_BOUND, 100);
    assert_eq!(validate_royalty(0), Ok(()));
    assert_eq!(validate_royalty(99), Ok(()));
    assert_eq!(validate_royalty(100), Err(Error::RoyaltyOutOfRange));
    assert_eq!(validate_royalty(255), Err(Error::RoyaltyOutOfRange));
}

#[test]
fn copy_bytes_copies() {
    assert_eq!(copy_bytes(&vec![]), Vec::<u8>::new());
    assert_eq!(copy_bytes(&vec![3, 1, 2]), vec![3, 1, 2]);
}

#[test]
fn new_pallet_is_empty() {
    let config = Config { string_limit: 1, key_limit: 2, value_limit: 3 };
    let nft = Pallet::new(config);
    assert_eq!(nft.config(), config);
    assert_eq!(nft.next_class_id(), 0);
    assert_eq!(nft.next_instance_id(0), 0);
    assert!(nft.classes(0).is_none());
    assert!(nft.instances(0, 0).is_none());
    assert!(nft.resources(0, 0, 0).is_none());
    assert!(nft.priorities(0, 0).is_empty());
    assert_eq!(nft, Pallet::with_next_class_id(config, 0));
    assert_eq!(Pallet::with_next_class_id(config, 17).next_class_id(), 17);
}

#[test]
fn key_same() {
    assert!(5u32.same(&5));
    assert!(!5u32.same(&6));
    assert!((1u32, 2u32).same(&(1, 2)));
    assert!(!(1u32, 2u32).same(&(2, 1)));
    assert!(!(1u32, 2u32).same(&(1, 3)));
    assert!((1u32, 2u32, 3u32).same(&(1, 2, 3)));
    assert!(!(1u32, 2u32, 3u32).same(&(1, 2, 4)));
    assert!(!(1u32, 2u32, 3u32).same(&(1, 0, 3)));
    assert!(!(1u32, 2u32, 3u32).same(&(0, 2, 3)));
}

#[test]
fn table_insert_get_remove() {
    let mut table: Table<u32, u32> = Table::new();
    assert!(table.get(&1).is_none());
    assert!(!table.contains_key(&1));
    table.insert(1, 10);
    table.insert(2, 20);
    assert_eq!(table.get(&1), Some(&10));
    assert_eq!(table.get(&2), Some(&20));
    table.insert(1, 11);
    assert_eq!(table.get(&1), Some(&11));
    assert_eq!(table.get(&2), Some(&20));
    assert_eq!(table.remove(&1), Some(11));
    assert_eq!(table.remove(&1), None);
    assert!(!table.contains_key(&1));
    assert!(table.contains_key(&2));
    assert_eq!(table.remove(&2), Some(20));
    assert_eq!(table, Table::new());
}

#[test]
fn table_any_under_and_remove_under() {
    let mut pairs: Table<(u32, u32), u32> = Table::new();
    assert!(!pairs.any_under(1));
    pairs.insert((1, 5), 0);
    pairs.insert((2, 6), 0);
    assert!(pairs.any_under(1));
    assert!(pairs.any_under(2));
    assert!(!pairs.any_under(5));
    pairs.remove(&(1, 5));
    assert!(!pairs.any_under(1));

    let mut triples: Table<(u32, u32, u32), u32> = Table::new();
    for (k, v) in [((1, 1, 1), 1), ((1, 2, 1), 2), ((1, 1, 2), 3), ((2, 1, 1), 4), ((1, 1, 3), 5)] {
        triples.insert(k, v);
    }
    triples.remove_under(1, 1);
    assert!(triples.get(&(1, 1, 1)).is_none());
    assert!(triples.get(&(1, 1, 2)).is_none());
    assert!(triples.get(&(1, 1, 3)).is_none());
    assert_eq!(triples.get(&(1, 2, 1)), Some(&2));
    assert_eq!(triples.get(&(2, 1, 1)), Some(&4));
    triples.remove_under(7, 7);
    assert_eq!(triples.get(&(1, 2, 1)), Some(&2));
    assert_eq!(triples.get(&(2, 1, 1)), Some(&4));
}
