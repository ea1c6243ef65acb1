use dorium_escrow::balance::GenericBalance;
use dorium_escrow::error::ContractError;
use dorium_escrow::state::{all_escrow_ids, Escrow, EscrowStore, Status};

fn dummy_escrow() -> Escrow {
    Escrow {
        id: "test escrow".to_string(),
        url: "https://darmstadt.dorium.apeunit.com".to_string(),
        description: "more information about the test here".to_string(),
        validators: vec!["arb".to_string()],
        proposer: "proposer".to_string(),
        source: "source".to_string(),
        balance: GenericBalance::default(),
        cw20_whitelist: vec!["Cw20 Value Token".to_string()],
        status: Status::Opened,
    }
}

#[test]
fn no_escrow_ids() {
    let store = EscrowStore::new();
    let ids = all_escrow_ids(&store);
    assert_eq!(0, ids.len());
}

#[test]
fn all_escrow_ids_in_order() {
    let mut store = EscrowStore::new();
    store.save("lazy".to_string(), dummy_escrow());
    store.save("assign".to_string(), dummy_escrow());
    store.save("zen".to_string(), dummy_escrow());

    let ids = all_escrow_ids(&store);
    assert_eq!(3, ids.len());
    assert_eq!(
        vec!["assign".to_string(), "lazy".to_string(), "zen".to_string()],
        ids
    );
}

#[test]
fn load_finds_saved_record() {
    let mut store = EscrowStore::new();
    store.save("alpha".to_string(), dummy_escrow());
    let loaded = store.load(&"alpha".to_string()).unwrap();
    assert_eq!(loaded.proposer, "proposer".to_string());
    let missing = store.load(&"beta".to_string());
    assert_eq!(missing.unwrap_err(), ContractError::NotFound);
}

#[test]
fn save_overwrites_existing_record() {
    let mut store = EscrowStore::new();
    store.save("alpha".to_string(), dummy_escrow());
    let mut replacement = dummy_escrow();
    replacement.proposer = "someone else".to_string();
    store.save("alpha".to_string(), replacement);
    assert_eq!(1, all_escrow_ids(&store).len());
    let loaded = store.load(&"alpha".to_string()).unwrap();
    assert_eq!(loaded.proposer, "someone else".to_string());
}

#[test]
fn create_if_absent_rejects_duplicates() {
    let mut store = EscrowStore::new();
    assert!(store
        .create_if_absent("alpha".to_string(), dummy_escrow())
        .is_ok());
    let err = store
        .create_if_absent("alpha".to_string(), dummy_escrow())
        .unwrap_err();
    assert_eq!(err, ContractError::AlreadyInUse);
}
