use minter::gateway::{initialize, AuthError, Contract};

fn s(x: &str) -> String {
    x.to_string()
}

#[test]
fn initialize_sets_owner_and_seed_minter() {
    let mut slot: Option<Contract> = None;
    let r = initialize(&mut slot, s("alice"), s("nft.example"));
    assert!(r.is_ok());
    let c = slot.expect("slot must be filled");
    assert_eq!(c.owner().as_str(), "alice");
    assert_eq!(c.nft_contract_id().as_str(), "nft.example");
    assert!(c.is_minter(&s("alice")));
    assert!(!c.is_minter(&s("bob")));
    assert_eq!(c.minters().len(), 1);
}

#[test]
fn initialize_twice_is_refused() {
    let mut slot: Option<Contract> = None;
    assert!(initialize(&mut slot, s("alice"), s("nft.example")).is_ok());
    let r = initialize(&mut slot, s("mallory"), s("other.example"));
    assert_eq!(r, Err(AuthError::AlreadyInitialized));
    let c = slot.expect("slot must keep its first contents");
    assert_eq!(c.owner().as_str(), "alice");
    assert_eq!(c.nft_contract_id().as_str(), "nft.example");
}

#[test]
fn non_owner_administration_is_refused() {
    let mut c = Contract::new(s("alice"), s("nft.example"));
    let r = c.add_minter(&s("bob"), s("bob"));
    assert_eq!(r, Err(AuthError::NotOwner));
    assert!(!c.is_minter(&s("bob")));
    assert_eq!(c.minters().len(), 1);

    let r = c.remove_minter(&s("bob"), s("alice"));
    assert_eq!(r, Err(AuthError::NotOwner));
    assert!(c.is_minter(&s("alice")));
    assert_eq!(c.minters().len(), 1);
}

#[test]
fn add_minter_grants_and_repeats_harmlessly() {
    let mut c = Contract::new(s("alice"), s("nft.example"));
    assert!(c.add_minter(&s("alice"), s("bob")).is_ok());
    assert!(c.is_minter(&s("bob")));
    let size = c.minters().len();
    assert!(c.add_minter(&s("alice"), s("bob")).is_ok());
    assert_eq!(c.minters().len(), size);
    assert!(c.is_minter(&s("bob")));
}

#[test]
fn remove_minter_revokes_and_absent_removal_is_harmless() {
    let mut c = Contract::new(s("alice"), s("nft.example"));
    assert!(c.add_minter(&s("alice"), s("bob")).is_ok());
    assert!(c.remove_minter(&s("alice"), s("bob")).is_ok());
    assert!(!c.is_minter(&s("bob")));

    let size = c.minters().len();
    assert!(c.remove_minter(&s("alice"), s("carol")).is_ok());
    assert_eq!(c.minters().len(), size);
}

#[test]
fn mint_by_non_minter_is_refused() {
    let c = Contract::new(s("alice"), s("nft.example"));
    let r = c.nft_mint(&s("bob"), s("t1"), s("carol"), s("meta"), 25, 100);
    match r {
        Ok(_) => panic!("a non-minter must not obtain a mint command"),
        Err(e) => assert_eq!(e, AuthError::NotMinter),
    }
}

#[test]
fn mint_splits_budget_and_forwards_value_whole() {
    let c = Contract::new(s("alice"), s("nft.example"));
    let cmd = c
        .nft_mint(&s("alice"), s("t1"), s("carol"), s("meta"), 1_000_000, 100)
        .expect("the owner is seeded as a minter");
    assert_eq!(cmd.receiver_id, "nft.example");
    assert_eq!(cmd.token_id, "t1");
    assert_eq!(cmd.token_owner_id, "carol");
    assert_eq!(cmd.token_metadata, "meta");
    assert_eq!(cmd.attached_deposit, 1_000_000);
    assert_eq!(cmd.gas_budget, 50);

    let odd = c
        .nft_mint(&s("alice"), s("t2"), s("carol"), s("meta"), 0, 101)
        .expect("the owner is seeded as a minter");
    assert_eq!(odd.gas_budget, 50, "the split rounds down and drops the remainder");
    assert_eq!(odd.attached_deposit, 0);

    let tiny = c
        .nft_mint(&s("alice"), s("t3"), s("carol"), s("meta"), 1, 1)
        .expect("the owner is seeded as a minter");
    assert_eq!(tiny.gas_budget, 0);
    assert_eq!(tiny.attached_deposit, 1);
}

#[test]
fn full_gateway_round() {
    let mut slot: Option<Contract> = None;
    assert!(initialize(&mut slot, s("alice"), s("nft.example")).is_ok());
    let mut c = slot.unwrap();
    assert_eq!(c.owner().as_str(), "alice");
    assert!(c.is_minter(&s("alice")));

    assert!(c.add_minter(&s("alice"), s("bob")).is_ok());
    assert!(c.is_minter(&s("bob")));

    let cmd = c
        .nft_mint(&s("bob"), s("t1"), s("carol"), s("meta"), 3, 100)
        .expect("bob was granted minting");
    assert!(cmd.gas_budget <= 50);
    assert_eq!(cmd.receiver_id, "nft.example");

    assert!(c.remove_minter(&s("alice"), s("bob")).is_ok());
    assert!(!c.is_minter(&s("bob")));
    let again = c.nft_mint(&s("bob"), s("t2"), s("carol"), s("meta"), 3, 100);
    match again {
        Ok(_) => panic!("a revoked minter must be refused"),
        Err(e) => assert_eq!(e, AuthError::NotMinter),
    }
}

#[test]
fn owner_removing_itself_keeps_ownership() {
    let mut c = Contract::new(s("alice"), s("nft.example"));
    assert!(c.remove_minter(&s("alice"), s("alice")).is_ok());
    assert!(!c.is_minter(&s("alice")));
    assert_eq!(c.owner().as_str(), "alice", "owner and minter status are independent");

    let r = c.nft_mint(&s("alice"), s("t1"), s("carol"), s("meta"), 0, 100);
    assert!(r.is_err(), "the owner lost its own right to mint");

    assert!(c.add_minter(&s("alice"), s("alice")).is_ok());
    assert!(c.is_minter(&s("alice")), "administration still works after the lockout");
}

#[test]
fn from_parts_drops_duplicates_and_round_trips() {
    let stored = vec![s("alice"), s("bob"), s("alice"), s("carol"), s("bob")];
    let c = Contract::from_parts(s("alice"), s("nft.example"), stored);
    assert!(c.is_minter(&s("alice")));
    assert!(c.is_minter(&s("bob")));
    assert!(c.is_minter(&s("carol")));
    assert!(!c.is_minter(&s("dave")));
    assert_eq!(c.minters().len(), 3);

    let reloaded = Contract::from_parts(
        c.owner().clone(),
        c.nft_contract_id().clone(),
        c.minters().clone(),
    );
    assert_eq!(reloaded.owner(), c.owner());
    assert_eq!(reloaded.nft_contract_id(), c.nft_contract_id());
    assert_eq!(reloaded.minters(), c.minters());
}
