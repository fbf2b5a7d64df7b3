use vstd::prelude::*;

use crate::brain_token::BrainSupply;
use crate::city_registry::{Agent, Building};
use crate::pubkey::Pubkey;
use crate::staking_vault::{vault_of, StakeReceipt, Vault};
use crate::task_marketplace::Task;

verus! {

/// The address of a record: a namespace, one per record kind, together with
/// the fields that tell records of that kind apart. Two keys are equal only
/// when both the namespace and every field agree, so no two record kinds
/// ever share an address.
#[derive(Clone, Copy, Debug)]
pub enum RecordKey {
    Supply,
    Agent(Pubkey),
    Building(Pubkey, i16, i16),
    Vault,
    Stake(Pubkey),
    Task(u64),
}

impl RecordKey {
    pub fn same_as(&self, other: &RecordKey) -> (r: bool)
        ensures
            r == (*self == *other),
    {
        match (self, other) {
            (RecordKey::Supply, RecordKey::Supply) => true,
            (RecordKey::Agent(a), RecordKey::Agent(b)) => a.same_as(b),
            (RecordKey::Building(a, ax, ay), RecordKey::Building(b, bx, by)) => {
                *ax == *bx && *ay == *by && a.same_as(b)
            },
            (RecordKey::Vault, RecordKey::Vault) => true,
            (RecordKey::Stake(a), RecordKey::Stake(b)) => a.same_as(b),
            (RecordKey::Task(a), RecordKey::Task(b)) => *a == *b,
            _ => false,
        }
    }
}

/// Key of the credit-supply singleton.
pub fn supply_key() -> (k: RecordKey)
    ensures
        k == RecordKey::Supply,
{
    RecordKey::Supply
}

/// Key of the agent owned by `owner`.
pub fn agent_key(owner: Pubkey) -> (k: RecordKey)
    ensures
        k == RecordKey::Agent(owner),
{
    RecordKey::Agent(owner)
}

/// Key of the building that `owner` placed on the cell (`grid_x`, `grid_y`).
pub fn building_key(owner: Pubkey, grid_x: i16, grid_y: i16) -> (k: RecordKey)
    ensures
        k == RecordKey::Building(owner, grid_x, grid_y),
{
    RecordKey::Building(owner, grid_x, grid_y)
}

/// Key of the vault singleton.
pub fn vault_key() -> (k: RecordKey)
    ensures
        k == RecordKey::Vault,
{
    RecordKey::Vault
}

/// Key of the stake receipt of `staker`.
pub fn stake_key(staker: Pubkey) -> (k: RecordKey)
    ensures
        k == RecordKey::Stake(staker),
{
    RecordKey::Stake(staker)
}

/// Key of the task numbered `task_id`.
pub fn task_key(task_id: u64) -> (k: RecordKey)
    ensures
        k == RecordKey::Task(task_id),
{
    RecordKey::Task(task_id)
}

/// A record of any kind.
#[derive(Clone, Debug)]
pub enum Record {
    Supply(BrainSupply),
    Agent(Agent),
    Building(Building),
    Vault(Vault),
    Stake(StakeReceipt),
    Task(Task),
}

/// Whether `r` may stand at `k`: its kind is the key's namespace, the fields
/// that the key was derived from agree with the record, and the record keeps
/// the invariant of its kind.
pub open spec fn fits(k: RecordKey, r: Record) -> bool {
    match (k, r) {
        (RecordKey::Supply, Record::Supply(_)) => true,
        (RecordKey::Agent(o), Record::Agent(a)) => a.owner == o && a.wf(),
        (RecordKey::Building(o, x, y), Record::Building(b)) => {
            b.owner == o && b.grid_x == x && b.grid_y == y && b.wf()
        },
        (RecordKey::Vault, Record::Vault(v)) => v.wf(),
        (RecordKey::Stake(o), Record::Stake(s)) => s.staker == o,
        (RecordKey::Task(id), Record::Task(t)) => t.id == id && t.wf(),
        _ => false,
    }
}

/// Every record in `m` fits the key it stands at.
pub open spec fn records_fit(m: Map<RecordKey, Record>) -> bool {
    forall|k: RecordKey| #[trigger] m.contains_key(k) ==> fits(k, m[k])
}

/// The keys of the stake receipts in `m`.
pub open spec fn stake_keys(m: Map<RecordKey, Record>) -> Set<RecordKey> {
    m.dom().filter(|k: RecordKey| k is Stake)
}

/// The vault counts every stake receipt there is, and there is none before
/// the vault.
pub open spec fn stakers_counted(m: Map<RecordKey, Record>) -> bool {
    match vault_of(m) {
        None => stake_keys(m).len() == 0,
        Some(v) => v.staker_count == stake_keys(m).len(),
    }
}

/// The invariant of the ledger's contents: finitely many records, each
/// fitting its key, and the stakers counted.
pub open spec fn ledger_inv(m: Map<RecordKey, Record>) -> bool {
    &&& m.dom().finite()
    &&& records_fit(m)
    &&& stakers_counted(m)
}

/// Storing a record that is neither a stake receipt nor the vault keeps the
/// stakers counted.
pub proof fn lemma_other_keeps_count(m: Map<RecordKey, Record>, k: RecordKey, r: Record)
    requires
        m.dom().finite(),
        stakers_counted(m),
        !(k is Stake),
        !(k is Vault),
    ensures
        stakers_counted(m.insert(k, r)),
{
    assert(stake_keys(m.insert(k, r)) =~= stake_keys(m));
}

/// Storing a stake receipt adds its key to the stake keys, which grow by one
/// where the staker had none.
pub proof fn lemma_stake_keys_insert(m: Map<RecordKey, Record>, k: RecordKey, r: Record)
    requires
        m.dom().finite(),
        k is Stake,
    ensures
        stake_keys(m.insert(k, r)) == stake_keys(m).insert(k),
        stake_keys(m.insert(k, r)).len() == stake_keys(m).len() + if m.contains_key(k) {
            0int
        } else {
            1int
        },
{
    assert(stake_keys(m.insert(k, r)) =~= stake_keys(m).insert(k));
    m.dom().lemma_len_filter(|q: RecordKey| q is Stake);
}

/// The flat keyed store that holds every record of the ledger. Records are
/// created once and never removed.
#[derive(Clone)]
pub struct Store {
    entries: Vec<(RecordKey, Record)>,
    contents: Ghost<Map<RecordKey, Record>>,
}

impl View for Store {
    type V = Map<RecordKey, Record>;

    closed spec fn view(&self) -> Map<RecordKey, Record> {
        self.contents@
    }
}

impl Store {
    /// The entries hold each key at most once, and the map view holds
    /// exactly the entries.
    pub closed spec fn wf(&self) -> bool {
        &&& forall|i: int, j: int|
            0 <= i < j < self.entries@.len() ==> #[trigger] self.entries@[i].0
                != #[trigger] self.entries@[j].0
        &&& forall|i: int|
            0 <= i < self.entries@.len() ==> #[trigger] self.contents@.contains_key(
                self.entries@[i].0,
            ) && self.contents@[self.entries@[i].0] == self.entries@[i].1
        &&& forall|k: RecordKey| #[trigger]
            self.contents@.contains_key(k) ==> exists|i: int|
                0 <= i < self.entries@.len() && #[trigger] self.entries@[i].0 == k
        &&& self.contents@.dom().finite()
    }

    /// The invariant of the ledger: the store is well formed and every record
    /// fits its key.
    pub open spec fn inv(&self) -> bool {
        self.wf() && ledger_inv(self@)
    }

    pub proof fn lemma_finite(&self)
        requires
            self.wf(),
        ensures
            self@.dom().finite(),
    {
    }

    pub fn new() -> (s: Store)
        ensures
            s.inv(),
            s@ == Map::<RecordKey, Record>::empty(),
    {
        let s = Store { entries: Vec::new(), contents: Ghost(Map::empty()) };
        assert(stake_keys(s@) =~= Set::empty());
        s
    }

    /// Position of `k` among the entries.
    fn position(&self, k: &RecordKey) -> (r: Option<usize>)
        requires
            self.wf(),
        ensures
            match r {
                Some(i) => i < self.entries@.len() && self.entries@[i as int].0 == *k,
                None => !self@.contains_key(*k),
            },
    {
        let mut i: usize = 0;
        while i < self.entries.len()
            invariant
                self.wf(),
                0 <= i <= self.entries@.len(),
                forall|j: int| 0 <= j < i ==> self.entries@[j].0 != *k,
            decreases self.entries@.len() - i,
        {
            if self.entries[i].0.same_as(k) {
                return Some(i);
            }
            i = i + 1;
        }
        None
    }

    /// Whether a record stands at `k`.
    pub fn contains(&self, k: &RecordKey) -> (r: bool)
        requires
            self.wf(),
        ensures
            r == self@.contains_key(*k),
    {
        match self.position(k) {
            Some(_) => true,
            None => false,
        }
    }

    /// The record at `k`, if there is one.
    pub fn get(&self, k: &RecordKey) -> (r: Option<&Record>)
        requires
            self.wf(),
        ensures
            match r {
                Some(x) => self@.contains_key(*k) && *x == self@[*k],
                None => !self@.contains_key(*k),
            },
    {
        match self.position(k) {
            Some(i) => {
                assert(self.contents@.contains_key(self.entries@[i as int].0));
                Some(&self.entries[i].1)
            },
            None => None,
        }
    }

    /// Stores `r` at `k`, in place of the record there if there is one.
    pub(crate) fn put(&mut self, k: RecordKey, r: Record)
        requires
            old(self).wf(),
            records_fit(old(self)@),
            fits(k, r),
        ensures
            final(self).wf(),
            records_fit(final(self)@),
            final(self)@ == old(self)@.insert(k, r),
    {
        let ghost m = self.contents@.insert(k, r);
        match self.position(&k) {
            Some(i) => {
                self.entries.set(i, (k, r));
                self.contents = Ghost(m);
                assert forall|q: RecordKey| #[trigger] self.contents@.contains_key(q) implies exists|
                    j: int,
                |
                    0 <= j < self.entries@.len() && #[trigger] self.entries@[j].0 == q by {
                    if q != k {
                        let j = choose|j: int|
                            0 <= j < old(self).entries@.len() && #[trigger] old(
                                self,
                            ).entries@[j].0 == q;
                        assert(self.entries@[j].0 == q);
                    } else {
                        assert(self.entries@[i as int].0 == q);
                    }
                }
            },
            None => {
                self.entries.push((k, r));
                self.contents = Ghost(m);
                let ghost n = self.entries@.len() - 1;
                assert(self.entries@[n].0 == k);
                assert forall|q: RecordKey| #[trigger] self.contents@.contains_key(q) implies exists|
                    j: int,
                |
                    0 <= j < self.entries@.len() && #[trigger] self.entries@[j].0 == q by {
                    if q != k {
                        let j = choose|j: int|
                            0 <= j < old(self).entries@.len() && #[trigger] old(
                                self,
                            ).entries@[j].0 == q;
                        assert(self.entries@[j].0 == q);
                    } else {
                        assert(self.entries@[n].0 == q);
                    }
                }
            },
        }
    }
}

} // verus!
