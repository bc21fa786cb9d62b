//! Tick-driven simulation of programmable bots living in square bays.
//!
//! The library holds the world model and its rules: the bay grid and its
//! entity table, the check and commit of each bot action, the host import
//! protocol that lets a script choose at most one action per tick, the
//! per-bay tick steps, the replay log and its file framing, the generation of
//! new bays, and the path search that bots use to find their way. Sandboxing,
//! threads and files are left to the caller.

pub mod bay;
pub mod bot_actions;
pub mod codes;
pub mod config;
pub mod entity;
pub mod executor;
pub mod frame;
pub mod generate;
pub mod ids;
pub mod laws;
pub mod pathfinding;
pub mod protocol;
pub mod replay;
pub mod rules;
pub mod ticker;
pub mod types;

pub use bay::Bay;
pub use bot_actions::build_entity::{apply_bot_build_entity, bot_can_build_entity, commit_build_entity};
pub use bot_actions::deposit_resource::{apply_bot_deposit_resource, bot_can_deposit_resource};
pub use bot_actions::harvest_resource::{apply_bot_harvest_resource, bot_can_harvest_resource};
pub use bot_actions::move_towards::{apply_bot_move_towards, bot_can_move_towards};
pub use bot_actions::withdraw_resource::{apply_bot_withdraw_resource, bot_can_withdraw_resource};
pub use config::BAY_SIZE;
pub use executor::{checked_pointer, chosen_action, epoch_deadline, BotTickError, SandboxBuffer, TickPhase};
pub use frame::{frame_record, read_frame_length, split_frames};
pub use pathfinding::{empty_neighbors, neighbors, Goal, ANTENNA, PARTIAL_ENTITY, POSITION, RESOURCE};
pub use protocol::{host_call, HostCall};
pub use replay::{apply_record, ReplayError, ReplayRecord};
pub use types::{
    ActionError, Antenna, Bot, BotAction, Direction, Entity, EntityID, PartialEntity, PartialEntityType,
    Resource,
};
