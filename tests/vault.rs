use brain_ledger::pubkey::Pubkey;
use brain_ledger::staking_vault::{
    distribute_brain_yield, initialize_vault, record_lst_delegation, stake_sol, AdminAction,
    InitializeVault, StakeReceipt, StakeSol, Transfer, Vault, VaultError,
};
use brain_ledger::store::{stake_key, vault_key, Record, Store};

fn key(b: u8) -> Pubkey {
    Pubkey::new_from_array([b; 32])
}

fn vault(store: &Store) -> Vault {
    match store.get(&vault_key()) {
        Some(Record::Vault(v)) => *v,
        _ => panic!("no vault"),
    }
}

fn receipt(store: &Store, staker: Pubkey) -> StakeReceipt {
    match store.get(&stake_key(staker)) {
        Some(Record::Stake(r)) => *r,
        _ => panic!("no receipt"),
    }
}

fn ready() -> Store {
    let mut store = Store::new();
    assert_eq!(initialize_vault(&mut store, &InitializeVault { authority: key(100) }), Ok(()));
    store
}

#[test]
fn stake_twice_end_to_end() {
    let mut store = ready();
    let s = key(1);
    let ctx = StakeSol { staker: s, vault_sol: key(50) };
    assert_eq!(
        stake_sol(&mut store, &ctx, 1000, 42),
        Ok(Transfer { from: s, to: key(50), amount: 1000 })
    );
    assert_eq!(vault(&store).total_sol_deposited, 1000);
    assert_eq!(vault(&store).staker_count, 1);
    let r = receipt(&store, s);
    assert_eq!(r.staker, s);
    assert_eq!(r.sol_deposited, 1000);
    assert_eq!(r.deposit_ts, 42);
    assert_eq!(stake_sol(&mut store, &ctx, 500, 43).map(|t| t.amount), Ok(500));
    assert_eq!(vault(&store).total_sol_deposited, 1500);
    assert_eq!(vault(&store).staker_count, 1);
    assert_eq!(receipt(&store, s).sol_deposited, 1500);
    assert_eq!(receipt(&store, s).deposit_ts, 42);
}

#[test]
fn new_staker_counts_once() {
    let mut store = ready();
    stake_sol(&mut store, &StakeSol { staker: key(1), vault_sol: key(50) }, 10, 0).unwrap();
    stake_sol(&mut store, &StakeSol { staker: key(2), vault_sol: key(50) }, 20, 0).unwrap();
    assert_eq!(vault(&store).staker_count, 2);
    assert_eq!(vault(&store).total_sol_deposited, 30);
}

#[test]
fn stake_errors() {
    let mut empty = Store::new();
    let ctx = StakeSol { staker: key(1), vault_sol: key(50) };
    assert_eq!(stake_sol(&mut empty, &ctx, 5, 0), Err(VaultError::NotInitialized));
    let mut store = ready();
    assert_eq!(stake_sol(&mut store, &ctx, 0, 0), Err(VaultError::ZeroAmount));
    assert!(store.get(&stake_key(key(1))).is_none());
    stake_sol(&mut store, &ctx, u64::MAX, 0).unwrap();
    assert_eq!(stake_sol(&mut store, &ctx, 1, 0), Err(VaultError::ArithmeticOverflow));
    assert_eq!(vault(&store).total_sol_deposited, u64::MAX);
    assert_eq!(receipt(&store, key(1)).sol_deposited, u64::MAX);
    assert_eq!(
        initialize_vault(&mut store, &InitializeVault { authority: key(1) }),
        Err(VaultError::AlreadyInitialized)
    );
    assert_eq!(vault(&store).authority, key(100));
}

#[test]
fn admin_records_need_the_authority() {
    let mut store = ready();
    let admin = AdminAction { authority: key(100) };
    let other = AdminAction { authority: key(7) };
    assert_eq!(record_lst_delegation(&mut store, &admin, 300), Ok(()));
    assert_eq!(record_lst_delegation(&mut store, &admin, 200), Ok(()));
    assert_eq!(distribute_brain_yield(&mut store, &admin, 70), Ok(()));
    assert_eq!(record_lst_delegation(&mut store, &other, 1), Err(VaultError::AuthorityMismatch));
    assert_eq!(distribute_brain_yield(&mut store, &other, 1), Err(VaultError::AuthorityMismatch));
    let v = vault(&store);
    assert_eq!(v.lst_delegated, 500);
    assert_eq!(v.brain_yield_distributed, 70);
    assert_eq!(v.total_sol_deposited, 0);
    assert_eq!(distribute_brain_yield(&mut store, &admin, u64::MAX), Err(VaultError::ArithmeticOverflow));
    assert_eq!(record_lst_delegation(&mut store, &admin, u64::MAX), Err(VaultError::ArithmeticOverflow));
    assert_eq!(vault(&store), v);
}
