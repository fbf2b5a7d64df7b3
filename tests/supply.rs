use brain_ledger::brain_token::{
    burn_on_api_call, initialize_brain, mint_on_task_completion, Burn, BrainSupply, BurnBrain,
    InitializeBrain, MintBrain, MintTo, SupplyError,
};
use brain_ledger::pubkey::Pubkey;
use brain_ledger::store::{supply_key, Record, Store};

fn key(b: u8) -> Pubkey {
    Pubkey::new_from_array([b; 32])
}

fn supply(store: &Store) -> BrainSupply {
    match store.get(&supply_key()) {
        Some(Record::Supply(s)) => *s,
        _ => panic!("no supply"),
    }
}

fn mint_ctx() -> MintBrain {
    MintBrain { authority: key(1), mint: key(2), recipient_ata: key(3), mint_authority: key(4) }
}

fn burn_ctx() -> BurnBrain {
    BurnBrain { burner: key(5), mint: key(2), burner_ata: key(6) }
}

fn ready() -> Store {
    let mut store = Store::new();
    let r = initialize_brain(&mut store, &InitializeBrain { authority: key(1), mint: key(2) }, 9);
    assert_eq!(r, Ok(()));
    store
}

#[test]
fn initialize_sets_zero_counters() {
    let store = ready();
    let s = supply(&store);
    assert_eq!(s.authority, key(1));
    assert_eq!(s.mint, key(2));
    assert_eq!(s.total_minted, 0);
    assert_eq!(s.total_burned, 0);
    assert_eq!(s.decimals, 9);
}

#[test]
fn initialize_twice_fails() {
    let mut store = ready();
    mint_on_task_completion(&mut store, &mint_ctx(), 5).unwrap();
    let r = initialize_brain(&mut store, &InitializeBrain { authority: key(8), mint: key(9) }, 6);
    assert_eq!(r, Err(SupplyError::AlreadyInitialized));
    assert_eq!(supply(&store).total_minted, 5);
    assert_eq!(supply(&store).decimals, 9);
}

#[test]
fn mint_and_burn_accumulate() {
    let mut store = ready();
    assert_eq!(
        mint_on_task_completion(&mut store, &mint_ctx(), 500),
        Ok(MintTo { mint: key(2), to: key(3), authority: key(4), amount: 500 })
    );
    assert_eq!(mint_on_task_completion(&mut store, &mint_ctx(), 250).map(|m| m.amount), Ok(250));
    assert_eq!(
        burn_on_api_call(&mut store, &burn_ctx(), 100),
        Ok(Burn { mint: key(2), from: key(6), authority: key(5), amount: 100 })
    );
    let s = supply(&store);
    assert_eq!(s.total_minted, 750);
    assert_eq!(s.total_burned, 100);
}

#[test]
fn burn_beyond_minted_is_recorded() {
    let mut store = ready();
    assert!(burn_on_api_call(&mut store, &burn_ctx(), 40).is_ok());
    assert_eq!(supply(&store).total_burned, 40);
    assert_eq!(supply(&store).total_minted, 0);
}

#[test]
fn overflow_fails_and_leaves_counters() {
    let mut store = ready();
    mint_on_task_completion(&mut store, &mint_ctx(), u64::MAX).unwrap();
    burn_on_api_call(&mut store, &burn_ctx(), u64::MAX - 1).unwrap();
    assert_eq!(mint_on_task_completion(&mut store, &mint_ctx(), 1), Err(SupplyError::ArithmeticOverflow));
    assert_eq!(burn_on_api_call(&mut store, &burn_ctx(), 2), Err(SupplyError::ArithmeticOverflow));
    assert!(burn_on_api_call(&mut store, &burn_ctx(), 1).is_ok());
    let s = supply(&store);
    assert_eq!(s.total_minted, u64::MAX);
    assert_eq!(s.total_burned, u64::MAX);
    assert_eq!(mint_on_task_completion(&mut store, &mint_ctx(), 0).map(|m| m.amount), Ok(0));
}

#[test]
fn mint_before_initialize_fails() {
    let mut store = Store::new();
    assert_eq!(mint_on_task_completion(&mut store, &mint_ctx(), 1), Err(SupplyError::NotInitialized));
    assert_eq!(burn_on_api_call(&mut store, &burn_ctx(), 1), Err(SupplyError::NotInitialized));
    assert!(store.get(&supply_key()).is_none());
}

#[test]
fn other_asset_is_refused() {
    let mut store = ready();
    mint_on_task_completion(&mut store, &mint_ctx(), 10).unwrap();
    let foreign_mint = MintBrain { mint: key(77), ..mint_ctx() };
    assert_eq!(mint_on_task_completion(&mut store, &foreign_mint, 5), Err(SupplyError::AssetMismatch));
    let foreign_burn = BurnBrain { mint: key(77), ..burn_ctx() };
    assert_eq!(burn_on_api_call(&mut store, &foreign_burn, 5), Err(SupplyError::AssetMismatch));
    let s = supply(&store);
    assert_eq!(s.total_minted, 10);
    assert_eq!(s.total_burned, 0);
    assert_eq!(s.mint, key(2));
}
