use brain_ledger::city_registry::{
    place_building, register_agent, update_agent_stats, Agent, Building, CityError,
    PlaceBuilding, RegisterAgent, UpdateAgent,
};
use brain_ledger::pubkey::Pubkey;
use brain_ledger::store::{agent_key, building_key, Record, Store};

fn key(b: u8) -> Pubkey {
    Pubkey::new_from_array([b; 32])
}

fn agent(store: &Store, owner: Pubkey) -> Agent {
    match store.get(&agent_key(owner)) {
        Some(Record::Agent(a)) => a.clone(),
        _ => panic!("no agent"),
    }
}

fn building(store: &Store, owner: Pubkey, x: i16, y: i16) -> Building {
    match store.get(&building_key(owner, x, y)) {
        Some(Record::Building(b)) => b.clone(),
        _ => panic!("no building"),
    }
}

fn with_agent(owner: Pubkey) -> Store {
    let mut store = Store::new();
    let r = register_agent(&mut store, &RegisterAgent { owner }, "nova".to_string(), "docks".to_string());
    assert_eq!(r, Ok(()));
    store
}

#[test]
fn register_starts_at_level_one() {
    let store = with_agent(key(1));
    let a = agent(&store, key(1));
    assert_eq!(a.owner, key(1));
    assert_eq!(a.name, "nova");
    assert_eq!(a.district, "docks");
    assert_eq!(a.level, 1);
    assert_eq!(
        (a.brain_earned, a.brain_spent, a.tasks_completed, a.buildings, a.reputation),
        (0, 0, 0, 0, 0)
    );
}

#[test]
fn register_errors() {
    let mut store = with_agent(key(1));
    assert_eq!(
        register_agent(&mut store, &RegisterAgent { owner: key(1) }, "x".to_string(), "y".to_string()),
        Err(CityError::AgentAlreadyExists)
    );
    assert_eq!(agent(&store, key(1)).name, "nova");
    assert_eq!(
        register_agent(&mut store, &RegisterAgent { owner: key(2) }, "n".repeat(33), "y".to_string()),
        Err(CityError::NameTooLong)
    );
    assert_eq!(
        register_agent(&mut store, &RegisterAgent { owner: key(2) }, "n".to_string(), "d".repeat(33)),
        Err(CityError::DistrictTooLong)
    );
    assert!(store.get(&agent_key(key(2))).is_none());
    assert_eq!(
        register_agent(&mut store, &RegisterAgent { owner: key(2) }, "n".repeat(32), "d".repeat(32)),
        Ok(())
    );
}

#[test]
fn level_follows_completed_tasks() {
    let mut store = with_agent(key(1));
    let ctx = UpdateAgent { authority: key(9), owner: key(1) };
    assert_eq!(update_agent_stats(&mut store, &ctx, 100, 10, 9), Ok(()));
    assert_eq!(agent(&store, key(1)).level, 1);
    assert_eq!(update_agent_stats(&mut store, &ctx, 0, 0, 1), Ok(()));
    assert_eq!(agent(&store, key(1)).level, 2);
    assert_eq!(update_agent_stats(&mut store, &ctx, 5, 5, 25), Ok(()));
    let a = agent(&store, key(1));
    assert_eq!(a.tasks_completed, 35);
    assert_eq!(a.level, 4);
    assert_eq!(a.brain_earned, 105);
    assert_eq!(a.brain_spent, 15);
}

#[test]
fn stats_overflow_and_missing_agent() {
    let mut store = with_agent(key(1));
    let ctx = UpdateAgent { authority: key(9), owner: key(1) };
    assert_eq!(
        update_agent_stats(&mut store, &UpdateAgent { authority: key(9), owner: key(2) }, 1, 1, 1),
        Err(CityError::AgentNotFound)
    );
    assert_eq!(update_agent_stats(&mut store, &ctx, u64::MAX, 0, 0), Ok(()));
    assert_eq!(update_agent_stats(&mut store, &ctx, 1, 0, 0), Err(CityError::ArithmeticOverflow));
    assert_eq!(update_agent_stats(&mut store, &ctx, 0, 0, 655_349), Ok(()));
    assert_eq!(agent(&store, key(1)).level, 65_535);
    assert_eq!(update_agent_stats(&mut store, &ctx, 0, 0, 1), Err(CityError::ArithmeticOverflow));
    let a = agent(&store, key(1));
    assert_eq!(a.tasks_completed, 655_349);
    assert_eq!(a.level, 65_535);
    assert_eq!(a.brain_earned, u64::MAX);
}

#[test]
fn place_building_counts_on_agent() {
    let mut store = with_agent(key(1));
    let ctx = PlaceBuilding { owner: key(1) };
    assert_eq!(place_building(&mut store, &ctx, "forge".to_string(), 250, -3, 4), Ok(()));
    let b = building(&store, key(1), -3, 4);
    assert_eq!(b.owner, key(1));
    assert_eq!(b.building_type, "forge");
    assert_eq!(b.level, 1);
    assert_eq!(b.brain_cost, 250);
    assert_eq!(b.output_multiplier, 100);
    assert_eq!((b.grid_x, b.grid_y), (-3, 4));
    assert_eq!(agent(&store, key(1)).buildings, 1);
    assert_eq!(place_building(&mut store, &ctx, "mill".to_string(), 1, 4, -3), Ok(()));
    assert_eq!(agent(&store, key(1)).buildings, 2);
}

#[test]
fn occupied_cell_is_refused() {
    let mut store = with_agent(key(1));
    let ctx = PlaceBuilding { owner: key(1) };
    assert_eq!(place_building(&mut store, &ctx, "forge".to_string(), 250, 0, 0), Ok(()));
    assert_eq!(
        place_building(&mut store, &ctx, "tower".to_string(), 9, 0, 0),
        Err(CityError::BuildingAlreadyExists)
    );
    assert_eq!(agent(&store, key(1)).buildings, 1);
    assert_eq!(building(&store, key(1), 0, 0).building_type, "forge");
}

#[test]
fn place_building_errors() {
    let mut store = with_agent(key(1));
    assert_eq!(
        place_building(&mut store, &PlaceBuilding { owner: key(2) }, "a".to_string(), 1, 0, 0),
        Err(CityError::AgentNotFound)
    );
    assert_eq!(
        place_building(&mut store, &PlaceBuilding { owner: key(1) }, "t".repeat(33), 1, 0, 0),
        Err(CityError::BuildingTypeTooLong)
    );
    assert_eq!(agent(&store, key(1)).buildings, 0);
    assert!(store.get(&building_key(key(1), 0, 0)).is_none());
}
