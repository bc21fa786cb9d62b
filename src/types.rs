//! The entities of a bay and the values exchanged with bot scripts.
use vstd::prelude::*;

verus! {

/// Identifier of an entity or a player, handed out by a process-wide counter.
pub type EntityID = u64;

/// A raw material that bots harvest, carry and deposit.
#[derive(Clone, Copy, PartialEq, Eq, Structural, Debug)]
pub enum Resource {
    Copper,
    Gold,
    Silicon,
    Plastic,
}

/// One of the four grid directions; `Up` decreases `y`, `Left` decreases `x`.
#[derive(Clone, Copy, PartialEq, Eq, Structural, Debug)]
pub enum Direction {
    Up,
    Down,
    Left,
    Right,
}

/// Why an action was refused.
#[derive(Clone, Copy, PartialEq, Eq, Structural, Debug)]
pub enum ActionError {
    ActionNotPossible,
    NotEnoughEnergy,
    AlreadyActed,
}

/// The kinds of structure that bots can build.
#[derive(Clone, Copy, PartialEq, Eq, Structural, Debug)]
pub enum PartialEntityType {
    Antenna,
}

/// A bot, controlled by the script of the player `controller_id`.
#[derive(Clone, Copy, PartialEq, Eq, Structural, Debug)]
pub struct Bot {
    pub id: EntityID,
    pub controller_id: EntityID,
    pub energy: u32,
    pub held_resource: Option<Resource>,
    pub x: usize,
    pub y: usize,
}

/// The structure that marks a bay as controlled, and stores resources.
#[derive(Clone, Copy, PartialEq, Eq, Structural, Debug)]
pub struct Antenna {
    pub controller_id: EntityID,
    pub stored_copper: u8,
    pub stored_gold: u8,
    pub stored_silicon: u8,
    pub stored_plastic: u8,
}

/// A structure under construction, with the resources given and still owed.
#[derive(Clone, Copy, PartialEq, Eq, Structural, Debug)]
pub struct PartialEntity {
    pub entity_type: PartialEntityType,
    pub contributed_copper: u8,
    pub required_copper: u8,
    pub contributed_gold: u8,
    pub required_gold: u8,
    pub contributed_silicon: u8,
    pub required_silicon: u8,
    pub contributed_plastic: u8,
    pub required_plastic: u8,
}

/// Anything that occupies a cell of a bay.
#[derive(Clone, Copy, PartialEq, Eq, Structural, Debug)]
pub enum Entity {
    Bot(Bot),
    Antenna(Antenna),
    PartialEntity(PartialEntity),
    Interconnect { next_bay_id: EntityID },
    Resource(Resource),
}

} // verus!

verus! {

/// The action a bot's script chose for this tick.
#[derive(Clone, Copy, PartialEq, Eq, Structural, Debug)]
pub enum BotAction {
    MoveTowards(Direction),
    HarvestResource { x: u32, y: u32 },
    DepositResource { x: u32, y: u32 },
    WithdrawResource { resource: Resource, x: u32, y: u32 },
    BuildEntity { entity_type: PartialEntityType, x: u32, y: u32 },
}

} // verus!
