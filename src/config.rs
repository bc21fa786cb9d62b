//! Tunable constants of the simulation.
use vstd::prelude::*;

verus! {

/// Side length of a bay's square grid.
pub const BAY_SIZE: usize = 24;

/// Size in bytes of each player's persistent network memory.
pub const NETWORK_MEMORY_SIZE: usize = 512_000;

/// Wall-clock budget of a bot's tick, in epochs.
pub const BOT_TIME_LIMIT: u64 = 100;

/// Budget for copying the bay and network memory into the sandbox, in epochs.
pub const BOT_SETUP_TIME_LIMIT: u64 = 25;

/// Ceiling on a bot instance's linear memory, in bytes.
pub const BOT_MEMORY_LIMIT: usize = 2_000_000;

/// Energy a bot starts with.
pub const INITIAL_BOT_ENERGY: u32 = 100;

/// Energy every bot regains at the end of each tick.
pub const BOT_ENERGY_PER_RECHARGE: u32 = 5;

/// Energy spent by a committed move.
pub const MOVE_TOWARDS_ENERGY: u32 = 10;

/// Energy spent by a committed harvest.
pub const HARVEST_RESOURCE_ENERGY: u32 = 30;

/// Energy spent by a committed deposit.
pub const DEPOSIT_RESOURCE_ENERGY: u32 = 5;

/// Energy spent by a committed withdrawal.
pub const WITHDRAW_RESOURCE_ENERGY: u32 = 10;

/// Energy spent by a committed build contribution.
pub const BUILD_ENTITY_ENERGY: u32 = 30;

/// Capacity of the queue between the simulation and the replay writer.
pub const RECORDING_QUEUE_MESSAGE_LIMIT: usize = 100;

/// Number of bots placed in a freshly generated bay.
pub const INITIAL_BOTS_PER_BAY: usize = 12;

/// Number of resources placed in a freshly generated bay.
pub const INITIAL_RESOURCES_PER_BAY: usize = 30;

} // verus!
