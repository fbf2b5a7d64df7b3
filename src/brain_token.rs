use vstd::prelude::*;

use crate::pubkey::Pubkey;
use crate::store::{lemma_other_keeps_count, Record, RecordKey, Store};

verus! {

/// The credit-supply singleton: an audit trail of every unit minted and
/// burned.
#[derive(Clone, Copy, Debug, PartialEq, Eq)]
pub struct BrainSupply {
    pub authority: Pubkey,
    pub mint: Pubkey,
    pub total_minted: u64,
    pub total_burned: u64,
    pub decimals: u8,
}

/// Identities taking part in setting up the supply.
#[derive(Clone, Copy, Debug)]
pub struct InitializeBrain {
    /// The signer that sets up the supply and becomes its authority.
    pub authority: Pubkey,
    /// The credit asset.
    pub mint: Pubkey,
}

/// Identities taking part in a mint.
#[derive(Clone, Copy, Debug)]
pub struct MintBrain {
    pub authority: Pubkey,
    /// The credit asset; it must be the one the supply was set up for.
    pub mint: Pubkey,
    /// The holding that receives the minted units.
    pub recipient_ata: Pubkey,
    /// The derived identity that holds the right to mint.
    pub mint_authority: Pubkey,
}

/// Identities taking part in a burn.
#[derive(Clone, Copy, Debug)]
pub struct BurnBrain {
    /// The signer whose holding is debited.
    pub burner: Pubkey,
    /// The credit asset; it must be the one the supply was set up for.
    pub mint: Pubkey,
    /// The holding that the units are removed from.
    pub burner_ata: Pubkey,
}

/// Delivery of `amount` new units of `mint` to the holding `to`, signed by
/// `authority`; carried out by the asset primitive.
#[derive(Clone, Copy, Debug, PartialEq, Eq)]
pub struct MintTo {
    pub mint: Pubkey,
    pub to: Pubkey,
    pub authority: Pubkey,
    pub amount: u64,
}

/// Removal of `amount` units of `mint` from the holding `from`, signed by
/// `authority`; carried out by the asset primitive.
#[derive(Clone, Copy, Debug, PartialEq, Eq)]
pub struct Burn {
    pub mint: Pubkey,
    pub from: Pubkey,
    pub authority: Pubkey,
    pub amount: u64,
}

#[derive(Clone, Copy, Debug, PartialEq, Eq, Structural)]
pub enum SupplyError {
    /// The supply singleton exists already.
    AlreadyInitialized,
    /// The supply singleton has not been created.
    NotInitialized,
    /// The call names another asset than the one the supply was set up for.
    AssetMismatch,
    /// A counter would leave the range of `u64`.
    ArithmeticOverflow,
}

/// The supply singleton in `m`, if it has been created.
pub open spec fn supply_of(m: Map<RecordKey, Record>) -> Option<BrainSupply> {
    if m.contains_key(RecordKey::Supply) {
        match m[RecordKey::Supply] {
            Record::Supply(s) => Some(s),
            _ => None,
        }
    } else {
        None
    }
}

/// Outcome of setting up the supply: the error or unit, and the store after.
pub open spec fn initialize_brain_spec(
    m: Map<RecordKey, Record>,
    ctx: InitializeBrain,
    decimals: u8,
) -> (Result<(), SupplyError>, Map<RecordKey, Record>) {
    if m.contains_key(RecordKey::Supply) {
        (Err(SupplyError::AlreadyInitialized), m)
    } else {
        let supply = BrainSupply {
            authority: ctx.authority,
            mint: ctx.mint,
            total_minted: 0,
            total_burned: 0,
            decimals,
        };
        (Ok(()), m.insert(RecordKey::Supply, Record::Supply(supply)))
    }
}

/// Outcome of minting `amount`: the delivery that must go with it, or the
/// error; and the store after.
pub open spec fn mint_spec(m: Map<RecordKey, Record>, ctx: MintBrain, amount: u64) -> (
    Result<MintTo, SupplyError>,
    Map<RecordKey, Record>,
) {
    match supply_of(m) {
        None => (Err(SupplyError::NotInitialized), m),
        Some(s) => if ctx.mint != s.mint {
            (Err(SupplyError::AssetMismatch), m)
        } else if s.total_minted + amount > u64::MAX {
            (Err(SupplyError::ArithmeticOverflow), m)
        } else {
            let supply = BrainSupply { total_minted: (s.total_minted + amount) as u64, ..s };
            let delivery = MintTo {
                mint: s.mint,
                to: ctx.recipient_ata,
                authority: ctx.mint_authority,
                amount,
            };
            (Ok(delivery), m.insert(RecordKey::Supply, Record::Supply(supply)))
        },
    }
}

/// Outcome of burning `amount`: the removal that must go with it, or the
/// error; and the store after.
pub open spec fn burn_spec(m: Map<RecordKey, Record>, ctx: BurnBrain, amount: u64) -> (
    Result<Burn, SupplyError>,
    Map<RecordKey, Record>,
) {
    match supply_of(m) {
        None => (Err(SupplyError::NotInitialized), m),
        Some(s) => if ctx.mint != s.mint {
            (Err(SupplyError::AssetMismatch), m)
        } else if s.total_burned + amount > u64::MAX {
            (Err(SupplyError::ArithmeticOverflow), m)
        } else {
            let supply = BrainSupply { total_burned: (s.total_burned + amount) as u64, ..s };
            let removal = Burn {
                mint: s.mint,
                from: ctx.burner_ata,
                authority: ctx.burner,
                amount,
            };
            (Ok(removal), m.insert(RecordKey::Supply, Record::Supply(supply)))
        },
    }
}

/// Neither counter of the supply went down from `before` to `after`, and a
/// supply that existed still does.
pub open spec fn supply_advances(before: Map<RecordKey, Record>, after: Map<RecordKey, Record>) -> bool {
    match supply_of(before) {
        None => true,
        Some(s) => match supply_of(after) {
            None => false,
            Some(t) => s.total_minted <= t.total_minted && s.total_burned <= t.total_burned,
        },
    }
}

/// The supply singleton, if it has been created.
fn load_supply(store: &Store) -> (r: Option<BrainSupply>)
    requires
        store.wf(),
    ensures
        r == supply_of(store@),
{
    match store.get(&RecordKey::Supply) {
        Some(Record::Supply(s)) => Some(*s),
        _ => None,
    }
}

/// Creates the supply singleton with both counters at zero.
pub fn initialize_brain(store: &mut Store, ctx: &InitializeBrain, decimals: u8) -> (r: Result<
    (),
    SupplyError,
>)
    requires
        old(store).inv(),
    ensures
        final(store).inv(),
        (r, final(store)@) == initialize_brain_spec(old(store)@, *ctx, decimals),
{
    if store.contains(&RecordKey::Supply) {
        return Err(SupplyError::AlreadyInitialized);
    }
    let supply = BrainSupply {
        authority: ctx.authority,
        mint: ctx.mint,
        total_minted: 0,
        total_burned: 0,
        decimals,
    };
    let ghost m0 = store@;
    store.put(RecordKey::Supply, Record::Supply(supply));
    proof {
        lemma_other_keeps_count(m0, RecordKey::Supply, store@[RecordKey::Supply]);
    }
    Ok(())
}

/// Counts `amount` of the supply's own asset as minted and returns the
/// delivery to the recipient that the caller carries out in the same
/// all-or-nothing step. A call naming another asset fails.
pub fn mint_on_task_completion(store: &mut Store, ctx: &MintBrain, amount: u64) -> (r: Result<
    MintTo,
    SupplyError,
>)
    requires
        old(store).inv(),
    ensures
        final(store).inv(),
        (r, final(store)@) == mint_spec(old(store)@, *ctx, amount),
        supply_advances(old(store)@, final(store)@),
{
    let s = match load_supply(store) {
        Some(s) => s,
        None => return Err(SupplyError::NotInitialized),
    };
    if !ctx.mint.same_as(&s.mint) {
        return Err(SupplyError::AssetMismatch);
    }
    let minted = match s.total_minted.checked_add(amount) {
        Some(t) => t,
        None => return Err(SupplyError::ArithmeticOverflow),
    };
    let ghost m0 = store@;
    store.put(RecordKey::Supply, Record::Supply(BrainSupply { total_minted: minted, ..s }));
    proof {
        lemma_other_keeps_count(m0, RecordKey::Supply, store@[RecordKey::Supply]);
    }
    Ok(MintTo { mint: s.mint, to: ctx.recipient_ata, authority: ctx.mint_authority, amount })
}

/// Counts `amount` of the supply's own asset as burned and returns the
/// removal from the burner's holding that the caller carries out in the same
/// all-or-nothing step. A call naming another asset fails.
pub fn burn_on_api_call(store: &mut Store, ctx: &BurnBrain, amount: u64) -> (r: Result<
    Burn,
    SupplyError,
>)
    requires
        old(store).inv(),
    ensures
        final(store).inv(),
        (r, final(store)@) == burn_spec(old(store)@, *ctx, amount),
        supply_advances(old(store)@, final(store)@),
{
    let s = match load_supply(store) {
        Some(s) => s,
        None => return Err(SupplyError::NotInitialized),
    };
    if !ctx.mint.same_as(&s.mint) {
        return Err(SupplyError::AssetMismatch);
    }
    let burned = match s.total_burned.checked_add(amount) {
        Some(t) => t,
        None => return Err(SupplyError::ArithmeticOverflow),
    };
    let ghost m0 = store@;
    store.put(RecordKey::Supply, Record::Supply(BrainSupply { total_burned: burned, ..s }));
    proof {
        lemma_other_keeps_count(m0, RecordKey::Supply, store@[RecordKey::Supply]);
    }
    Ok(Burn { mint: s.mint, from: ctx.burner_ata, authority: ctx.burner, amount })
}

/// One call on the supply: a mint or a burn.
#[derive(Clone, Copy, Debug)]
pub enum SupplyCall {
    Mint(MintBrain, u64),
    Burn(BurnBrain, u64),
}

/// The store after `call`.
pub open spec fn apply_supply_call(m: Map<RecordKey, Record>, call: SupplyCall) -> Map<
    RecordKey,
    Record,
> {
    match call {
        SupplyCall::Mint(ctx, amount) => mint_spec(m, ctx, amount).1,
        SupplyCall::Burn(ctx, amount) => burn_spec(m, ctx, amount).1,
    }
}

/// The store after each of `calls` in turn.
pub open spec fn run_supply_calls(m: Map<RecordKey, Record>, calls: Seq<SupplyCall>) -> Map<
    RecordKey,
    Record,
>
    decreases calls.len(),
{
    if calls.len() == 0 {
        m
    } else {
        apply_supply_call(run_supply_calls(m, calls.drop_last()), calls.last())
    }
}

/// A mint or a burn of the supply's asset that would take its counter past
/// `u64::MAX` fails with `ArithmeticOverflow` and leaves the store as it was.
pub proof fn lemma_supply_overflow_fails_cleanly(m: Map<RecordKey, Record>, call: SupplyCall)
    requires
        supply_of(m) is Some,
        match call {
            SupplyCall::Mint(ctx, amount) => ctx.mint == supply_of(m)->0.mint
                && supply_of(m)->0.total_minted + amount > u64::MAX,
            SupplyCall::Burn(ctx, amount) => ctx.mint == supply_of(m)->0.mint
                && supply_of(m)->0.total_burned + amount > u64::MAX,
        },
    ensures
        apply_supply_call(m, call) == m,
        match call {
            SupplyCall::Mint(ctx, amount) => mint_spec(m, ctx, amount).0 == Err::<
                MintTo,
                SupplyError,
            >(SupplyError::ArithmeticOverflow),
            SupplyCall::Burn(ctx, amount) => burn_spec(m, ctx, amount).0 == Err::<
                Burn,
                SupplyError,
            >(SupplyError::ArithmeticOverflow),
        },
{
}

/// Over any run of mints and burns, neither supply counter ever goes down.
pub proof fn lemma_supply_run_monotone(m: Map<RecordKey, Record>, calls: Seq<SupplyCall>)
    ensures
        supply_advances(m, run_supply_calls(m, calls)),
    decreases calls.len(),
{
    if calls.len() > 0 {
        lemma_supply_run_monotone(m, calls.drop_last());
    }
}

} // verus!
