use vstd::prelude::*;

use crate::pubkey::Pubkey;
use crate::store::{lemma_stake_keys_insert, stake_keys, Record, RecordKey, Store};

verus! {

/// The vault singleton: what was deposited into custody, and what was
/// recorded as delegated and distributed.
#[derive(Clone, Copy, Debug, PartialEq, Eq)]
pub struct Vault {
    pub authority: Pubkey,
    pub total_sol_deposited: u64,
    pub total_sol_withdrawn: u64,
    pub lst_delegated: u64,
    pub brain_yield_distributed: u64,
    pub staker_count: u32,
}

impl Vault {
    pub open spec fn wf(&self) -> bool {
        self.total_sol_withdrawn <= self.total_sol_deposited
    }
}

/// What one staker has deposited.
#[derive(Clone, Copy, Debug, PartialEq, Eq)]
pub struct StakeReceipt {
    pub staker: Pubkey,
    pub sol_deposited: u64,
    pub lst_share: u64,
    pub brain_claimed: u64,
    /// When the receipt was created, in seconds since the Unix epoch.
    pub deposit_ts: i64,
}

#[derive(Clone, Copy, Debug, PartialEq, Eq, Structural)]
pub enum VaultError {
    /// A stake of nothing.
    ZeroAmount,
    /// The vault exists already.
    AlreadyInitialized,
    /// The vault has not been created.
    NotInitialized,
    /// The signer is not the vault's authority.
    AuthorityMismatch,
    /// A counter would leave the range of its type.
    ArithmeticOverflow,
}

/// Identities taking part in setting up the vault.
#[derive(Clone, Copy, Debug)]
pub struct InitializeVault {
    /// The signer that sets up the vault and becomes its authority.
    pub authority: Pubkey,
}

/// Identities taking part in a stake.
#[derive(Clone, Copy, Debug)]
pub struct StakeSol {
    /// The signer whose holding pays the stake.
    pub staker: Pubkey,
    /// The holding that keeps the vault's custody.
    pub vault_sol: Pubkey,
}

/// The signer of an administrative call on the vault.
#[derive(Clone, Copy, Debug)]
pub struct AdminAction {
    pub authority: Pubkey,
}

/// A move of `amount` base units from `from` to `to`, carried out by the
/// value-transfer primitive.
#[derive(Clone, Copy, Debug, PartialEq, Eq)]
pub struct Transfer {
    pub from: Pubkey,
    pub to: Pubkey,
    pub amount: u64,
}

/// The vault in `m`, if it has been created.
pub open spec fn vault_of(m: Map<RecordKey, Record>) -> Option<Vault> {
    if m.contains_key(RecordKey::Vault) {
        match m[RecordKey::Vault] {
            Record::Vault(v) => Some(v),
            _ => None,
        }
    } else {
        None
    }
}

/// The stake receipt of `staker` in `m`, if there is one.
pub open spec fn receipt_of(m: Map<RecordKey, Record>, staker: Pubkey) -> Option<StakeReceipt> {
    if m.contains_key(RecordKey::Stake(staker)) {
        match m[RecordKey::Stake(staker)] {
            Record::Stake(r) => Some(r),
            _ => None,
        }
    } else {
        None
    }
}

pub open spec fn fits_u64(x: int) -> bool {
    0 <= x <= u64::MAX
}

/// Outcome of setting up the vault: the error or unit, and the store after.
pub open spec fn initialize_vault_spec(m: Map<RecordKey, Record>, ctx: InitializeVault) -> (
    Result<(), VaultError>,
    Map<RecordKey, Record>,
) {
    if m.contains_key(RecordKey::Vault) {
        (Err(VaultError::AlreadyInitialized), m)
    } else {
        (
            Ok(()),
            m.insert(
                RecordKey::Vault,
                Record::Vault(
                    Vault {
                        authority: ctx.authority,
                        total_sol_deposited: 0,
                        total_sol_withdrawn: 0,
                        lst_delegated: 0,
                        brain_yield_distributed: 0,
                        staker_count: 0,
                    },
                ),
            ),
        )
    }
}

/// Outcome of a stake of `amount` at time `now_ts`: the transfer into
/// custody that must go with it, or the error; and the store after. A first
/// stake creates the staker's receipt and counts one staker more; a later
/// one adds to the receipt.
pub open spec fn stake_sol_spec(
    m: Map<RecordKey, Record>,
    ctx: StakeSol,
    amount: u64,
    now_ts: i64,
) -> (Result<Transfer, VaultError>, Map<RecordKey, Record>) {
    match vault_of(m) {
        None => (Err(VaultError::NotInitialized), m),
        Some(v) => if amount == 0 {
            (Err(VaultError::ZeroAmount), m)
        } else if !fits_u64(v.total_sol_deposited + amount) {
            (Err(VaultError::ArithmeticOverflow), m)
        } else {
            let transfer = Transfer { from: ctx.staker, to: ctx.vault_sol, amount };
            match receipt_of(m, ctx.staker) {
                None => if v.staker_count + 1 > u32::MAX {
                    (Err(VaultError::ArithmeticOverflow), m)
                } else {
                    let receipt = StakeReceipt {
                        staker: ctx.staker,
                        sol_deposited: amount,
                        lst_share: 0,
                        brain_claimed: 0,
                        deposit_ts: now_ts,
                    };
                    let vault = Vault {
                        total_sol_deposited: (v.total_sol_deposited + amount) as u64,
                        staker_count: (v.staker_count + 1) as u32,
                        ..v
                    };
                    (
                        Ok(transfer),
                        m.insert(RecordKey::Stake(ctx.staker), Record::Stake(receipt)).insert(
                            RecordKey::Vault,
                            Record::Vault(vault),
                        ),
                    )
                },
                Some(r) => if !fits_u64(r.sol_deposited + amount) {
                    (Err(VaultError::ArithmeticOverflow), m)
                } else {
                    let receipt = StakeReceipt {
                        sol_deposited: (r.sol_deposited + amount) as u64,
                        ..r
                    };
                    let vault = Vault {
                        total_sol_deposited: (v.total_sol_deposited + amount) as u64,
                        ..v
                    };
                    (
                        Ok(transfer),
                        m.insert(RecordKey::Stake(ctx.staker), Record::Stake(receipt)).insert(
                            RecordKey::Vault,
                            Record::Vault(vault),
                        ),
                    )
                },
            }
        },
    }
}

/// Outcome of recording a delegation of `amount`: only the vault's
/// authority may record one, and it adds to `lst_delegated`.
pub open spec fn record_lst_delegation_spec(
    m: Map<RecordKey, Record>,
    ctx: AdminAction,
    amount: u64,
) -> (Result<(), VaultError>, Map<RecordKey, Record>) {
    match vault_of(m) {
        None => (Err(VaultError::NotInitialized), m),
        Some(v) => if v.authority != ctx.authority {
            (Err(VaultError::AuthorityMismatch), m)
        } else if !fits_u64(v.lst_delegated + amount) {
            (Err(VaultError::ArithmeticOverflow), m)
        } else {
            let vault = Vault { lst_delegated: (v.lst_delegated + amount) as u64, ..v };
            (Ok(()), m.insert(RecordKey::Vault, Record::Vault(vault)))
        },
    }
}

/// Outcome of recording a yield distribution of `amount`: only the vault's
/// authority may record one, and it adds to `brain_yield_distributed`.
pub open spec fn distribute_brain_yield_spec(
    m: Map<RecordKey, Record>,
    ctx: AdminAction,
    amount: u64,
) -> (Result<(), VaultError>, Map<RecordKey, Record>) {
    match vault_of(m) {
        None => (Err(VaultError::NotInitialized), m),
        Some(v) => if v.authority != ctx.authority {
            (Err(VaultError::AuthorityMismatch), m)
        } else if !fits_u64(v.brain_yield_distributed + amount) {
            (Err(VaultError::ArithmeticOverflow), m)
        } else {
            let vault = Vault {
                brain_yield_distributed: (v.brain_yield_distributed + amount) as u64,
                ..v
            };
            (Ok(()), m.insert(RecordKey::Vault, Record::Vault(vault)))
        },
    }
}

/// The vault in the store, if it has been created.
fn load_vault(store: &Store) -> (r: Option<Vault>)
    requires
        store.wf(),
    ensures
        r == vault_of(store@),
{
    match store.get(&RecordKey::Vault) {
        Some(Record::Vault(v)) => Some(*v),
        _ => None,
    }
}

/// Creates the vault, with every counter at zero.
pub fn initialize_vault(store: &mut Store, ctx: &InitializeVault) -> (r: Result<(), VaultError>)
    requires
        old(store).inv(),
    ensures
        final(store).inv(),
        (r, final(store)@) == initialize_vault_spec(old(store)@, *ctx),
{
    if store.contains(&RecordKey::Vault) {
        return Err(VaultError::AlreadyInitialized);
    }
    let vault = Vault {
        authority: ctx.authority,
        total_sol_deposited: 0,
        total_sol_withdrawn: 0,
        lst_delegated: 0,
        brain_yield_distributed: 0,
        staker_count: 0,
    };
    let ghost m0 = store@;
    store.put(RecordKey::Vault, Record::Vault(vault));
    proof {
        assert(stake_keys(store@) =~= stake_keys(m0));
    }
    Ok(())
}

/// Records a stake of `amount` by `ctx.staker` at time `now_ts`, and returns
/// the transfer into custody that the caller carries out in the same
/// all-or-nothing step.
pub fn stake_sol(store: &mut Store, ctx: &StakeSol, amount: u64, now_ts: i64) -> (r: Result<
    Transfer,
    VaultError,
>)
    requires
        old(store).inv(),
    ensures
        final(store).inv(),
        (r, final(store)@) == stake_sol_spec(old(store)@, *ctx, amount, now_ts),
{
    let v = match load_vault(store) {
        Some(v) => v,
        None => return Err(VaultError::NotInitialized),
    };
    if amount == 0 {
        return Err(VaultError::ZeroAmount);
    }
    let total = match v.total_sol_deposited.checked_add(amount) {
        Some(t) => t,
        None => return Err(VaultError::ArithmeticOverflow),
    };
    let key = RecordKey::Stake(ctx.staker);
    let (receipt, vault) = match store.get(&key) {
        Some(Record::Stake(old_receipt)) => {
            let deposited = match old_receipt.sol_deposited.checked_add(amount) {
                Some(d) => d,
                None => return Err(VaultError::ArithmeticOverflow),
            };
            (
                StakeReceipt { sol_deposited: deposited, ..*old_receipt },
                Vault { total_sol_deposited: total, ..v },
            )
        },
        _ => {
            let count = match v.staker_count.checked_add(1) {
                Some(c) => c,
                None => return Err(VaultError::ArithmeticOverflow),
            };
            (
                StakeReceipt {
                    staker: ctx.staker,
                    sol_deposited: amount,
                    lst_share: 0,
                    brain_claimed: 0,
                    deposit_ts: now_ts,
                },
                Vault { total_sol_deposited: total, staker_count: count, ..v },
            )
        },
    };
    let ghost m0 = store@;
    proof {
        store.lemma_finite();
    }
    store.put(key, Record::Stake(receipt));
    let ghost m1 = store@;
    store.put(RecordKey::Vault, Record::Vault(vault));
    proof {
        lemma_stake_keys_insert(m0, key, m1[key]);
        assert(stake_keys(store@) =~= stake_keys(m1));
    }
    Ok(Transfer { from: ctx.staker, to: ctx.vault_sol, amount })
}

/// The vault, provided the signer of `ctx` is its authority.
fn authorized_vault(store: &Store, ctx: &AdminAction) -> (r: Result<Vault, VaultError>)
    requires
        store.wf(),
    ensures
        match vault_of(store@) {
            None => r == Err::<Vault, VaultError>(VaultError::NotInitialized),
            Some(v) => if v.authority != ctx.authority {
                r == Err::<Vault, VaultError>(VaultError::AuthorityMismatch)
            } else {
                r == Ok::<Vault, VaultError>(v)
            },
        },
{
    match load_vault(store) {
        None => Err(VaultError::NotInitialized),
        Some(v) => if v.authority.same_as(&ctx.authority) {
            Ok(v)
        } else {
            Err(VaultError::AuthorityMismatch)
        },
    }
}

/// Records that `amount` was delegated; no value moves.
pub fn record_lst_delegation(store: &mut Store, ctx: &AdminAction, amount: u64) -> (r: Result<
    (),
    VaultError,
>)
    requires
        old(store).inv(),
    ensures
        final(store).inv(),
        (r, final(store)@) == record_lst_delegation_spec(old(store)@, *ctx, amount),
{
    let v = authorized_vault(store, ctx)?;
    let delegated = match v.lst_delegated.checked_add(amount) {
        Some(d) => d,
        None => return Err(VaultError::ArithmeticOverflow),
    };
    let ghost m0 = store@;
    store.put(RecordKey::Vault, Record::Vault(Vault { lst_delegated: delegated, ..v }));
    proof {
        assert(stake_keys(store@) =~= stake_keys(m0));
    }
    Ok(())
}

/// Records that a yield of `amount` was distributed; minting it is the
/// caller's separate step.
pub fn distribute_brain_yield(store: &mut Store, ctx: &AdminAction, amount: u64) -> (r: Result<
    (),
    VaultError,
>)
    requires
        old(store).inv(),
    ensures
        final(store).inv(),
        (r, final(store)@) == distribute_brain_yield_spec(old(store)@, *ctx, amount),
{
    let v = authorized_vault(store, ctx)?;
    let distributed = match v.brain_yield_distributed.checked_add(amount) {
        Some(d) => d,
        None => return Err(VaultError::ArithmeticOverflow),
    };
    let ghost m0 = store@;
    store.put(
        RecordKey::Vault,
        Record::Vault(Vault { brain_yield_distributed: distributed, ..v }),
    );
    proof {
        assert(stake_keys(store@) =~= stake_keys(m0));
    }
    Ok(())
}

/// A first stake by an identity counts exactly one staker more; a second
/// stake by the same identity adds to its receipt and counts no one new.
pub proof fn lemma_stake_twice(
    m: Map<RecordKey, Record>,
    ctx: StakeSol,
    first: u64,
    first_ts: i64,
    second: u64,
    second_ts: i64,
)
    requires
        stake_sol_spec(m, ctx, first, first_ts).0 is Ok,
        stake_sol_spec(stake_sol_spec(m, ctx, first, first_ts).1, ctx, second, second_ts).0 is Ok,
    ensures
        ({
            let m1 = stake_sol_spec(m, ctx, first, first_ts).1;
            let m2 = stake_sol_spec(m1, ctx, second, second_ts).1;
            &&& receipt_of(m, ctx.staker) is None ==> vault_of(m1)->0.staker_count
                == vault_of(m)->0.staker_count + 1
            &&& receipt_of(m, ctx.staker) is Some ==> vault_of(m1)->0.staker_count
                == vault_of(m)->0.staker_count
            &&& vault_of(m2)->0.staker_count == vault_of(m1)->0.staker_count
            &&& receipt_of(m2, ctx.staker)->0.sol_deposited == receipt_of(
                m1,
                ctx.staker,
            )->0.sol_deposited + second
            &&& receipt_of(m1, ctx.staker) is Some
        }),
{
    let m1 = stake_sol_spec(m, ctx, first, first_ts).1;
    assert(receipt_of(m1, ctx.staker) is Some);
}

} // verus!
