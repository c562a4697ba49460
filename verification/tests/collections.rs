use nft_core::{
    ClassId, Config, Error, Event, LedgerCall, Outcome, Pallet, Principal, NULL_ACCOUNT,
};

const ALICE: u64 = 1;
const BOB: u64 = 2;
const STRING_LIMIT: u32 = 128;

fn config() -> Config {
    Config { string_limit: STRING_LIMIT, key_limit: 32, value_limit: 64 }
}

/// Turns a string into a Vec
fn stv(s: &str) -> Vec<u8> {
    s.as_bytes().to_vec()
}

#[test]
fn create_collection_works() {
    let mut nft = Pallet::new(config());
    let metadata = stv("testing");
    assert!(nft.mint_collection(Principal::Account(ALICE), metadata.clone()).is_ok());

    let before = nft.clone();
    assert_eq!(
        nft.mint_collection(Principal::Account(ALICE), vec![0; STRING_LIMIT as usize + 1]),
        Err(Error::MetadataTooLong)
    );
    assert_eq!(nft, before);

    let mut nft = Pallet::with_next_class_id(config(), ClassId::MAX);
    let before = nft.clone();
    assert_eq!(
        nft.mint_collection(Principal::Account(ALICE), metadata.clone()),
        Err(Error::IdSpaceExhausted)
    );
    assert_eq!(nft, before);
}

#[test]
fn create_collection_hands_back_event_and_ledger_call() {
    let mut nft = Pallet::new(config());
    assert_eq!(
        nft.mint_collection(Principal::Account(ALICE), stv("testing")),
        Ok(Outcome {
            event: Event::ClassCreated(ALICE, 0),
            ledger: Some(LedgerCall::CreateClass {
                class_id: 0,
                owner: ALICE,
                issuer: ALICE,
                frozen: false
            }),
        })
    );
    let info = nft.classes(0).unwrap();
    assert_eq!(info.metadata, stv("testing"));
    assert!(!info.locked);
    assert_eq!(nft.next_class_id(), 1);
    assert!(nft.classes(1).is_none());
}

#[test]
fn create_collection_by_protocol_uses_null_account() {
    let mut nft = Pallet::new(config());
    assert_eq!(
        nft.mint_collection(Principal::Protocol, stv("system")),
        Ok(Outcome {
            event: Event::ClassCreated(NULL_ACCOUNT, 0),
            ledger: Some(LedgerCall::CreateClass {
                class_id: 0,
                owner: NULL_ACCOUNT,
                issuer: NULL_ACCOUNT,
                frozen: false
            }),
        })
    );
}

#[test]
fn create_collection_accepts_metadata_at_the_limit() {
    let mut nft = Pallet::new(config());
    assert!(nft
        .mint_collection(Principal::Account(ALICE), vec![7; STRING_LIMIT as usize])
        .is_ok());
    assert!(nft.mint_collection(Principal::Account(ALICE), Vec::new()).is_ok());
}

#[test]
fn create_collection_checks_metadata_before_the_counter() {
    let mut nft = Pallet::with_next_class_id(config(), ClassId::MAX);
    assert_eq!(
        nft.mint_collection(Principal::Account(ALICE), vec![0; STRING_LIMIT as usize + 1]),
        Err(Error::MetadataTooLong)
    );
}

#[test]
fn class_ids_are_strictly_increasing() {
    let mut nft = Pallet::new(config());
    let mut last: Option<ClassId> = None;
    for round in 0..5u32 {
        let out = nft.mint_collection(Principal::Account(ALICE), stv("c")).unwrap();
        let id = match out.event {
            Event::ClassCreated(_, id) => id,
            _ => unreachable!(),
        };
        assert_eq!(id, round);
        if let Some(previous) = last {
            assert!(previous < id);
        }
        last = Some(id);
        // a refused call and a burn in between do not give the identifier back
        assert_eq!(
            nft.mint_collection(Principal::Account(ALICE), vec![0; STRING_LIMIT as usize + 1]),
            Err(Error::MetadataTooLong)
        );
        if round % 2 == 0 {
            assert!(nft.burn_collection(Principal::Account(ALICE), id, Some(ALICE)).is_ok());
        }
    }
    assert_eq!(nft.next_class_id(), 5);
}

#[test]
fn last_class_id_is_never_given_out() {
    let mut nft = Pallet::with_next_class_id(config(), ClassId::MAX - 1);
    assert_eq!(
        nft.mint_collection(Principal::Account(ALICE), stv("c")).unwrap().event,
        Event::ClassCreated(ALICE, ClassId::MAX - 1)
    );
    assert_eq!(nft.next_class_id(), ClassId::MAX);
    assert_eq!(
        nft.mint_collection(Principal::Account(ALICE), stv("c")),
        Err(Error::IdSpaceExhausted)
    );
    assert_eq!(nft.allocate_class_id(), Err(Error::IdSpaceExhausted));
    assert_eq!(nft.next_class_id(), ClassId::MAX);
}

#[test]
fn allocate_class_id_returns_counter_then_increments() {
    let mut nft = Pallet::new(config());
    assert_eq!(nft.allocate_class_id(), Ok(0));
    assert_eq!(nft.allocate_class_id(), Ok(1));
    assert_eq!(nft.next_class_id(), 2);
    assert_eq!(
        nft.mint_collection(Principal::Account(ALICE), stv("c")).unwrap().event,
        Event::ClassCreated(ALICE, 2)
    );
}

#[test]
fn lock_collection_needs_the_issuer() {
    let mut nft = Pallet::new(config());
    nft.mint_collection(Principal::Account(ALICE), stv("c")).unwrap();
    let before = nft.clone();
    assert_eq!(
        nft.lock_collection(Principal::Account(BOB), 0, Some(ALICE)),
        Err(Error::PermissionDenied)
    );
    assert_eq!(
        nft.lock_collection(Principal::Account(BOB), 0, None),
        Err(Error::PermissionDenied)
    );
    assert_eq!(nft, before);
    assert_eq!(
        nft.lock_collection(Principal::Account(ALICE), 0, Some(ALICE)),
        Ok(Outcome { event: Event::CollectionLocked(ALICE, 0), ledger: None })
    );
    assert!(nft.classes(0).unwrap().locked);
    assert_eq!(nft.classes(0).unwrap().metadata, stv("c"));
}

#[test]
fn lock_collection_of_unknown_class() {
    let mut nft = Pallet::new(config());
    assert_eq!(
        nft.lock_collection(Principal::Protocol, 3, None),
        Err(Error::ClassUnknown)
    );
    assert_eq!(
        nft.lock_collection(Principal::Account(ALICE), 3, Some(ALICE)),
        Err(Error::ClassUnknown)
    );
    // the caller is looked at before the class
    assert_eq!(
        nft.lock_collection(Principal::Account(ALICE), 3, None),
        Err(Error::PermissionDenied)
    );
}

#[test]
fn lock_collection_is_idempotent() {
    let mut nft = Pallet::new(config());
    nft.mint_collection(Principal::Account(ALICE), stv("c")).unwrap();
    assert!(nft.lock_collection(Principal::Account(ALICE), 0, Some(ALICE)).is_ok());
    let locked = nft.clone();
    assert_eq!(
        nft.lock_collection(Principal::Protocol, 0, Some(ALICE)),
        Ok(Outcome { event: Event::CollectionLocked(NULL_ACCOUNT, 0), ledger: None })
    );
    assert_eq!(nft.classes(0), locked.classes(0));
    assert!(nft.classes(0).unwrap().locked);
}

#[test]
fn locked_class_refuses_mint_and_keeps_instances() {
    let mut nft = Pallet::new(config());
    nft.mint_collection(Principal::Account(ALICE), stv("c")).unwrap();
    nft.mint_nft(Principal::Account(BOB), 0, ALICE, 5, stv("first")).unwrap();
    let minted = nft.instances(0, 0).cloned();
    assert!(nft.lock_collection(Principal::Account(ALICE), 0, Some(ALICE)).is_ok());
    let before = nft.clone();
    assert_eq!(
        nft.mint_nft(Principal::Account(BOB), 0, ALICE, 5, stv("second")),
        Err(Error::ClassLocked)
    );
    // the lock is looked at before the royalty and the metadata
    assert_eq!(
        nft.mint_nft(Principal::Account(BOB), 0, ALICE, 100, vec![0; STRING_LIMIT as usize + 1]),
        Err(Error::ClassLocked)
    );
    assert_eq!(nft, before);
    assert_eq!(nft.instances(0, 0).cloned(), minted);
    assert_eq!(nft.next_instance_id(0), 1);
    // the instance that exists can still get and accept a resource
    assert!(nft.add_resource(Principal::Account(ALICE), 0, 0, 1, stv("r"), Some(ALICE)).is_ok());
    assert!(nft.accept(Principal::Account(BOB), 0, 0, 1, Some(BOB)).is_ok());
}

#[test]
fn burn_collection_fails_while_instances_exist() {
    let mut nft = Pallet::new(config());
    nft.mint_collection(Principal::Account(ALICE), stv("c")).unwrap();
    nft.mint_nft(Principal::Account(BOB), 0, ALICE, 5, stv("a")).unwrap();
    nft.mint_nft(Principal::Account(BOB), 0, ALICE, 5, stv("b")).unwrap();
    let before = nft.clone();
    assert_eq!(
        nft.burn_collection(Principal::Account(ALICE), 0, Some(ALICE)),
        Err(Error::CollectionNotEmpty)
    );
    assert_eq!(nft, before);
    assert!(nft.burn_nft(Principal::Account(BOB), 0, 0, Some(BOB)).is_ok());
    assert_eq!(
        nft.burn_collection(Principal::Account(ALICE), 0, Some(ALICE)),
        Err(Error::CollectionNotEmpty)
    );
    assert!(nft.burn_nft(Principal::Account(BOB), 0, 1, Some(BOB)).is_ok());
    assert_eq!(
        nft.burn_collection(Principal::Account(ALICE), 0, Some(ALICE)),
        Ok(Outcome { event: Event::CollectionBurned(ALICE, 0), ledger: None })
    );
    assert!(nft.classes(0).is_none());
}

#[test]
fn burn_collection_checks_caller_then_class() {
    let mut nft = Pallet::new(config());
    nft.mint_collection(Principal::Account(ALICE), stv("c")).unwrap();
    nft.mint_nft(Principal::Account(BOB), 0, ALICE, 5, stv("a")).unwrap();
    assert_eq!(
        nft.burn_collection(Principal::Account(BOB), 0, Some(ALICE)),
        Err(Error::PermissionDenied)
    );
    assert_eq!(
        nft.burn_collection(Principal::Account(ALICE), 9, Some(ALICE)),
        Err(Error::ClassUnknown)
    );
    assert_eq!(
        nft.burn_collection(Principal::Protocol, 0, None),
        Err(Error::CollectionNotEmpty)
    );
}

#[test]
fn burned_class_id_is_not_recycled() {
    let mut nft = Pallet::new(config());
    nft.mint_collection(Principal::Account(ALICE), stv("c")).unwrap();
    assert!(nft.burn_collection(Principal::Account(ALICE), 0, Some(ALICE)).is_ok());
    assert_eq!(nft.next_class_id(), 1);
    assert_eq!(
        nft.mint_collection(Principal::Account(ALICE), stv("d")).unwrap().event,
        Event::ClassCreated(ALICE, 1)
    );
    assert!(nft.classes(0).is_none());
    assert_eq!(
        nft.mint_nft(Principal::Account(ALICE), 0, ALICE, 1, stv("m")),
        Err(Error::ClassUnknown)
    );
}

#[test]
fn change_issuer_asks_the_ledger() {
    let mut nft = Pallet::new(config());
    nft.mint_collection(Principal::Account(ALICE), stv("c")).unwrap();
    let before = nft.clone();
    assert_eq!(
        nft.change_issuer(Principal::Account(ALICE), 0, BOB, Some(ALICE)),
        Ok(Outcome {
            event: Event::IssuerChanged(ALICE, BOB, 0),
            ledger: Some(LedgerCall::SetIssuer { class_id: 0, issuer: BOB }),
        })
    );
    assert_eq!(
        nft.change_issuer(Principal::Account(BOB), 0, BOB, Some(ALICE)),
        Err(Error::PermissionDenied)
    );
    assert_eq!(
        nft.change_issuer(Principal::Protocol, 4, BOB, None),
        Err(Error::ClassUnknown)
    );
    assert_eq!(nft, before);
}

#[test]
fn set_property_on_class() {
    let mut nft = Pallet::new(config());
    nft.mint_collection(Principal::Account(ALICE), stv("c")).unwrap();
    let before = nft.clone();
    assert_eq!(
        nft.set_property(Principal::Account(ALICE), 0, None, stv("k"), stv("v"), Some(ALICE)),
        Ok(Outcome {
            event: Event::PropertySet(0, None, stv("k"), stv("v")),
            ledger: Some(LedgerCall::SetAttribute {
                class_id: 0,
                instance_id: None,
                key: stv("k"),
                value: stv("v")
            }),
        })
    );
    assert_eq!(
        nft.set_property(Principal::Account(BOB), 0, None, stv("k"), stv("v"), Some(ALICE)),
        Err(Error::PermissionDenied)
    );
    assert_eq!(
        nft.set_property(Principal::Account(ALICE), 1, None, stv("k"), stv("v"), Some(ALICE)),
        Err(Error::ClassUnknown)
    );
    assert_eq!(
        nft.set_property(Principal::Account(ALICE), 0, None, vec![1; 33], stv("v"), Some(ALICE)),
        Err(Error::MetadataTooLong)
    );
    assert_eq!(
        nft.set_property(Principal::Account(ALICE), 0, None, vec![1; 32], vec![2; 65], Some(ALICE)),
        Err(Error::MetadataTooLong)
    );
    assert!(nft
        .set_property(Principal::Account(ALICE), 0, None, vec![1; 32], vec![2; 64], Some(ALICE))
        .is_ok());
    assert_eq!(nft, before);
}

#[test]
fn set_property_on_instance_and_locked_class() {
    let mut nft = Pallet::new(config());
    nft.mint_collection(Principal::Account(ALICE), stv("c")).unwrap();
    nft.mint_nft(Principal::Account(BOB), 0, ALICE, 5, stv("a")).unwrap();
    assert_eq!(
        nft.set_property(Principal::Account(BOB), 0, Some(0), stv("k"), stv("v"), Some(BOB)),
        Ok(Outcome {
            event: Event::PropertySet(0, Some(0), stv("k"), stv("v")),
            ledger: Some(LedgerCall::SetAttribute {
                class_id: 0,
                instance_id: Some(0),
                key: stv("k"),
                value: stv("v")
            }),
        })
    );
    assert_eq!(
        nft.set_property(Principal::Account(BOB), 0, Some(1), stv("k"), stv("v"), Some(BOB)),
        Err(Error::InstanceUnknown)
    );
    nft.lock_collection(Principal::Account(ALICE), 0, Some(ALICE)).unwrap();
    assert_eq!(
        nft.set_property(Principal::Account(ALICE), 0, None, stv("k"), stv("v"), Some(ALICE)),
        Err(Error::ClassLocked)
    );
    // a lock does not touch the instances that exist
    assert!(nft
        .set_property(Principal::Account(BOB), 0, Some(0), stv("k"), stv("v"), Some(BOB))
        .is_ok());
}
