use vstd::prelude::*;

use crate::pubkey::Pubkey;
use crate::store::{fits, lemma_other_keeps_count, ledger_inv, Record, RecordKey, Store};
use vstd::string::StrSliceExecFns;

verus! {

/// Longest name, district or building type, in characters.
pub const MAX_LABEL_LEN: usize = 32;

/// An agent of the city, one per owner.
#[derive(Clone, Debug, PartialEq, Eq)]
pub struct Agent {
    pub owner: Pubkey,
    pub name: String,
    pub district: String,
    pub brain_earned: u64,
    pub brain_spent: u64,
    pub tasks_completed: u64,
    pub level: u16,
    pub buildings: u32,
    pub reputation: u64,
}

/// The level that belongs to a number of completed tasks: one more for
/// every ten tasks.
pub open spec fn level_for(tasks_completed: int) -> int {
    1 + tasks_completed / 10
}

impl Agent {
    pub open spec fn wf(&self) -> bool {
        &&& self.name@.len() <= MAX_LABEL_LEN
        &&& self.district@.len() <= MAX_LABEL_LEN
        &&& self.level == level_for(self.tasks_completed as int)
    }
}

/// A building on one cell of its owner's grid.
#[derive(Clone, Debug, PartialEq, Eq)]
pub struct Building {
    pub owner: Pubkey,
    pub building_type: String,
    pub level: u16,
    pub brain_cost: u64,
    /// Output in basis points of the base rate; 100 is 1.0x.
    pub output_multiplier: u16,
    pub grid_x: i16,
    pub grid_y: i16,
}

impl Building {
    pub open spec fn wf(&self) -> bool {
        self.building_type@.len() <= MAX_LABEL_LEN
    }
}

#[derive(Clone, Copy, Debug, PartialEq, Eq, Structural)]
pub enum CityError {
    /// The name is longer than 32 characters.
    NameTooLong,
    /// The district is longer than 32 characters.
    DistrictTooLong,
    /// The building type is longer than 32 characters.
    BuildingTypeTooLong,
    /// The owner has an agent already.
    AgentAlreadyExists,
    /// The owner has no agent.
    AgentNotFound,
    /// The cell holds a building of this owner already.
    BuildingAlreadyExists,
    /// A counter would leave the range of its type.
    ArithmeticOverflow,
}

/// The signer registering an agent for itself.
#[derive(Clone, Copy, Debug)]
pub struct RegisterAgent {
    pub owner: Pubkey,
}

/// The signer of a statistics update, and the owner of the agent updated.
#[derive(Clone, Copy, Debug)]
pub struct UpdateAgent {
    pub authority: Pubkey,
    pub owner: Pubkey,
}

/// The signer placing a building on its own grid.
#[derive(Clone, Copy, Debug)]
pub struct PlaceBuilding {
    pub owner: Pubkey,
}

/// The agent of `owner` in `m`, if there is one.
pub open spec fn agent_of(m: Map<RecordKey, Record>, owner: Pubkey) -> Option<Agent> {
    if m.contains_key(RecordKey::Agent(owner)) {
        match m[RecordKey::Agent(owner)] {
            Record::Agent(a) => Some(a),
            _ => None,
        }
    } else {
        None
    }
}

/// The building on cell (`x`, `y`) of `owner` in `m`, if there is one.
pub open spec fn building_of(m: Map<RecordKey, Record>, owner: Pubkey, x: i16, y: i16) -> Option<
    Building,
> {
    if m.contains_key(RecordKey::Building(owner, x, y)) {
        match m[RecordKey::Building(owner, x, y)] {
            Record::Building(b) => Some(b),
            _ => None,
        }
    } else {
        None
    }
}

/// Outcome of registering an agent named `name` in `district`.
pub open spec fn register_agent_spec(
    m: Map<RecordKey, Record>,
    ctx: RegisterAgent,
    name: String,
    district: String,
) -> (Result<(), CityError>, Map<RecordKey, Record>) {
    if m.contains_key(RecordKey::Agent(ctx.owner)) {
        (Err(CityError::AgentAlreadyExists), m)
    } else if name@.len() > MAX_LABEL_LEN {
        (Err(CityError::NameTooLong), m)
    } else if district@.len() > MAX_LABEL_LEN {
        (Err(CityError::DistrictTooLong), m)
    } else {
        let agent = Agent {
            owner: ctx.owner,
            name,
            district,
            brain_earned: 0,
            brain_spent: 0,
            tasks_completed: 0,
            level: 1,
            buildings: 0,
            reputation: 0,
        };
        (Ok(()), m.insert(RecordKey::Agent(ctx.owner), Record::Agent(agent)))
    }
}

/// Whether adding the deltas to `a` would take a counter, or the level that
/// follows from them, out of its range.
pub open spec fn stats_overflow(a: Agent, earned: u64, spent: u64, tasks: u64) -> bool {
    ||| a.brain_earned + earned > u64::MAX
    ||| a.brain_spent + spent > u64::MAX
    ||| a.tasks_completed + tasks > u64::MAX
    ||| level_for(a.tasks_completed + tasks) > u16::MAX
}

/// `a` with the deltas added and its level recomputed.
pub open spec fn agent_with_stats(a: Agent, earned: u64, spent: u64, tasks: u64) -> Agent {
    Agent {
        brain_earned: (a.brain_earned + earned) as u64,
        brain_spent: (a.brain_spent + spent) as u64,
        tasks_completed: (a.tasks_completed + tasks) as u64,
        level: level_for(a.tasks_completed + tasks) as u16,
        ..a
    }
}

/// Outcome of adding the deltas to the statistics of the agent of
/// `ctx.owner`.
pub open spec fn update_agent_stats_spec(
    m: Map<RecordKey, Record>,
    ctx: UpdateAgent,
    earned: u64,
    spent: u64,
    tasks: u64,
) -> (Result<(), CityError>, Map<RecordKey, Record>) {
    match agent_of(m, ctx.owner) {
        None => (Err(CityError::AgentNotFound), m),
        Some(a) => if stats_overflow(a, earned, spent, tasks) {
            (Err(CityError::ArithmeticOverflow), m)
        } else {
            (
                Ok(()),
                m.insert(
                    RecordKey::Agent(ctx.owner),
                    Record::Agent(agent_with_stats(a, earned, spent, tasks)),
                ),
            )
        },
    }
}

/// Outcome of placing a building of type `building_type` on cell
/// (`grid_x`, `grid_y`) of `ctx.owner`.
pub open spec fn place_building_spec(
    m: Map<RecordKey, Record>,
    ctx: PlaceBuilding,
    building_type: String,
    brain_cost: u64,
    grid_x: i16,
    grid_y: i16,
) -> (Result<(), CityError>, Map<RecordKey, Record>) {
    match agent_of(m, ctx.owner) {
        None => (Err(CityError::AgentNotFound), m),
        Some(a) => if m.contains_key(RecordKey::Building(ctx.owner, grid_x, grid_y)) {
            (Err(CityError::BuildingAlreadyExists), m)
        } else if building_type@.len() > MAX_LABEL_LEN {
            (Err(CityError::BuildingTypeTooLong), m)
        } else if a.buildings + 1 > u32::MAX {
            (Err(CityError::ArithmeticOverflow), m)
        } else {
            let building = Building {
                owner: ctx.owner,
                building_type,
                level: 1,
                brain_cost,
                output_multiplier: 100,
                grid_x,
                grid_y,
            };
            let agent = Agent { buildings: (a.buildings + 1) as u32, ..a };
            (
                Ok(()),
                m.insert(
                    RecordKey::Building(ctx.owner, grid_x, grid_y),
                    Record::Building(building),
                ).insert(RecordKey::Agent(ctx.owner), Record::Agent(agent)),
            )
        },
    }
}

/// Creates the agent of `ctx.owner` at level 1 with every counter at zero.
pub fn register_agent(store: &mut Store, ctx: &RegisterAgent, name: String, district: String) -> (r:
    Result<(), CityError>)
    requires
        old(store).inv(),
    ensures
        final(store).inv(),
        (r, final(store)@) == register_agent_spec(old(store)@, *ctx, name, district),
{
    let key = RecordKey::Agent(ctx.owner);
    if store.contains(&key) {
        return Err(CityError::AgentAlreadyExists);
    }
    if name.as_str().unicode_len() > MAX_LABEL_LEN {
        return Err(CityError::NameTooLong);
    }
    if district.as_str().unicode_len() > MAX_LABEL_LEN {
        return Err(CityError::DistrictTooLong);
    }
    let agent = Agent {
        owner: ctx.owner,
        name,
        district,
        brain_earned: 0,
        brain_spent: 0,
        tasks_completed: 0,
        level: 1,
        buildings: 0,
        reputation: 0,
    };
    let ghost m0 = store@;
    store.put(key, Record::Agent(agent));
    proof {
        lemma_other_keeps_count(m0, key, store@[key]);
    }
    Ok(())
}

/// Adds the deltas to the agent's counters and sets its level to one more
/// than a tenth of its completed tasks, rounded down.
pub fn update_agent_stats(
    store: &mut Store,
    ctx: &UpdateAgent,
    brain_earned_delta: u64,
    brain_spent_delta: u64,
    tasks_completed_delta: u64,
) -> (r: Result<(), CityError>)
    requires
        old(store).inv(),
    ensures
        final(store).inv(),
        (r, final(store)@) == update_agent_stats_spec(
            old(store)@,
            *ctx,
            brain_earned_delta,
            brain_spent_delta,
            tasks_completed_delta,
        ),
{
    let key = RecordKey::Agent(ctx.owner);
    let agent = match store.get(&key) {
        Some(Record::Agent(a)) => {
            let earned = match a.brain_earned.checked_add(brain_earned_delta) {
                Some(v) => v,
                None => return Err(CityError::ArithmeticOverflow),
            };
            let spent = match a.brain_spent.checked_add(brain_spent_delta) {
                Some(v) => v,
                None => return Err(CityError::ArithmeticOverflow),
            };
            let tasks = match a.tasks_completed.checked_add(tasks_completed_delta) {
                Some(v) => v,
                None => return Err(CityError::ArithmeticOverflow),
            };
            let level = tasks / 10 + 1;
            if level > u16::MAX as u64 {
                return Err(CityError::ArithmeticOverflow);
            }
            Agent {
                owner: a.owner,
                name: a.name.clone(),
                district: a.district.clone(),
                brain_earned: earned,
                brain_spent: spent,
                tasks_completed: tasks,
                level: level as u16,
                buildings: a.buildings,
                reputation: a.reputation,
            }
        },
        _ => return Err(CityError::AgentNotFound),
    };
    let ghost m0 = store@;
    store.put(key, Record::Agent(agent));
    proof {
        lemma_other_keeps_count(m0, key, store@[key]);
    }
    Ok(())
}

/// Creates a level-1 building at 1.0x output on the owner's cell and counts
/// it on the owner's agent.
pub fn place_building(
    store: &mut Store,
    ctx: &PlaceBuilding,
    building_type: String,
    brain_cost: u64,
    grid_x: i16,
    grid_y: i16,
) -> (r: Result<(), CityError>)
    requires
        old(store).inv(),
    ensures
        final(store).inv(),
        (r, final(store)@) == place_building_spec(
            old(store)@,
            *ctx,
            building_type,
            brain_cost,
            grid_x,
            grid_y,
        ),
{
    let agent_key = RecordKey::Agent(ctx.owner);
    let building_key = RecordKey::Building(ctx.owner, grid_x, grid_y);
    let agent = match store.get(&agent_key) {
        Some(Record::Agent(a)) => {
            if store.contains(&building_key) {
                return Err(CityError::BuildingAlreadyExists);
            }
            if building_type.as_str().unicode_len() > MAX_LABEL_LEN {
                return Err(CityError::BuildingTypeTooLong);
            }
            let count = match a.buildings.checked_add(1) {
                Some(c) => c,
                None => return Err(CityError::ArithmeticOverflow),
            };
            Agent {
                owner: a.owner,
                name: a.name.clone(),
                district: a.district.clone(),
                brain_earned: a.brain_earned,
                brain_spent: a.brain_spent,
                tasks_completed: a.tasks_completed,
                level: a.level,
                buildings: count,
                reputation: a.reputation,
            }
        },
        _ => return Err(CityError::AgentNotFound),
    };
    let building = Building {
        owner: ctx.owner,
        building_type,
        level: 1,
        brain_cost,
        output_multiplier: 100,
        grid_x,
        grid_y,
    };
    let ghost m0 = store@;
    store.put(building_key, Record::Building(building));
    proof {
        lemma_other_keeps_count(m0, building_key, store@[building_key]);
    }
    let ghost m0 = store@;
    store.put(agent_key, Record::Agent(agent));
    proof {
        lemma_other_keeps_count(m0, agent_key, store@[agent_key]);
    }
    Ok(())
}

/// One statistics update: the signer and agent, and the three deltas.
pub type StatsCall = (UpdateAgent, u64, u64, u64);

/// The store after each of `calls` in turn.
pub open spec fn run_stats_calls(m: Map<RecordKey, Record>, calls: Seq<StatsCall>) -> Map<
    RecordKey,
    Record,
>
    decreases calls.len(),
{
    if calls.len() == 0 {
        m
    } else {
        let c = calls.last();
        update_agent_stats_spec(run_stats_calls(m, calls.drop_last()), c.0, c.1, c.2, c.3).1
    }
}

/// A statistics update keeps every record fitting its key.
pub proof fn lemma_update_keeps_inv(
    m: Map<RecordKey, Record>,
    ctx: UpdateAgent,
    earned: u64,
    spent: u64,
    tasks: u64,
)
    requires
        ledger_inv(m),
    ensures
        ledger_inv(update_agent_stats_spec(m, ctx, earned, spent, tasks).1),
{
    let m2 = update_agent_stats_spec(m, ctx, earned, spent, tasks).1;
    let k0 = RecordKey::Agent(ctx.owner);
    if m2 != m {
        lemma_other_keeps_count(m, k0, m2[k0]);
    }
    assert forall|k: RecordKey| #[trigger] m2.contains_key(k) implies fits(k, m2[k]) by {
        if k != RecordKey::Agent(ctx.owner) {
            assert(m.contains_key(k));
        }
    }
}

/// After any run of statistics updates, every agent's level is one more
/// than a tenth of its completed tasks, rounded down.
pub proof fn lemma_level_after_updates(
    m: Map<RecordKey, Record>,
    calls: Seq<StatsCall>,
    owner: Pubkey,
)
    requires
        ledger_inv(m),
    ensures
        ledger_inv(run_stats_calls(m, calls)),
        agent_of(run_stats_calls(m, calls), owner) matches Some(a) ==> a.level == 1
            + a.tasks_completed / 10,
    decreases calls.len(),
{
    if calls.len() > 0 {
        let c = calls.last();
        lemma_level_after_updates(m, calls.drop_last(), owner);
        lemma_update_keeps_inv(run_stats_calls(m, calls.drop_last()), c.0, c.1, c.2, c.3);
    }
    let m2 = run_stats_calls(m, calls);
    assert(m2.contains_key(RecordKey::Agent(owner)) ==> fits(
        RecordKey::Agent(owner),
        m2[RecordKey::Agent(owner)],
    ));
}

/// Placing a building on a cell the owner has built on already fails and
/// leaves the store, and so the agent's building count, as it was.
pub proof fn lemma_place_on_occupied_cell(
    m: Map<RecordKey, Record>,
    ctx: PlaceBuilding,
    building_type: String,
    brain_cost: u64,
    grid_x: i16,
    grid_y: i16,
)
    requires
        m.contains_key(RecordKey::Building(ctx.owner, grid_x, grid_y)),
    ensures
        place_building_spec(m, ctx, building_type, brain_cost, grid_x, grid_y).1 == m,
        place_building_spec(m, ctx, building_type, brain_cost, grid_x, grid_y).0 is Err,
        agent_of(m, ctx.owner) is Some ==> place_building_spec(
            m,
            ctx,
            building_type,
            brain_cost,
            grid_x,
            grid_y,
        ).0 == Err::<(), CityError>(CityError::BuildingAlreadyExists),
{
}

} // verus!
