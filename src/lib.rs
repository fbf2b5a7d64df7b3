//! A ledger of an in-world economy: a credit supply, agent and building
//! records, a staking vault and a task market, all held in one keyed store
//! whose keys are derived from a namespace and the record's identifying fields.
//!
//! Every operation takes the store and the identities that signed the call,
//! checks what it may, and either fails leaving the store as it was or
//! applies its whole effect. Where an operation needs value to move on the
//! host (a mint, a burn, a transfer into custody), it returns that movement
//! for the caller to carry out in the same all-or-nothing step.

pub mod brain_token;
pub mod city_registry;
pub mod pubkey;
pub mod staking_vault;
pub mod store;
pub mod task_marketplace;
