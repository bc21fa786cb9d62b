//! The integer encodings shared with bot scripts across the sandbox boundary.
use crate::types::{ActionError, Direction, PartialEntityType, Resource};
use vstd::prelude::*;

verus! {

/// The code returned to a script for the outcome of an action import.
pub open spec fn result_code(r: Result<(), ActionError>) -> u32 {
    match r {
        Ok(()) => 0,
        Err(ActionError::ActionNotPossible) => 1,
        Err(ActionError::NotEnoughEnergy) => 2,
        Err(ActionError::AlreadyActed) => 3,
    }
}

/// The outcome a script reads from a returned code; other codes are invalid.
pub open spec fn result_of_code(c: u32) -> Result<Result<(), ActionError>, ()> {
    if c == 0 {
        Ok(Ok(()))
    } else if c == 1 {
        Ok(Err(ActionError::ActionNotPossible))
    } else if c == 2 {
        Ok(Err(ActionError::NotEnoughEnergy))
    } else if c == 3 {
        Ok(Err(ActionError::AlreadyActed))
    } else {
        Err(())
    }
}

pub open spec fn direction_code(d: Direction) -> u32 {
    match d {
        Direction::Up => 0,
        Direction::Down => 1,
        Direction::Left => 2,
        Direction::Right => 3,
    }
}

pub open spec fn direction_of_code(c: u32) -> Result<Direction, ()> {
    if c == 0 {
        Ok(Direction::Up)
    } else if c == 1 {
        Ok(Direction::Down)
    } else if c == 2 {
        Ok(Direction::Left)
    } else if c == 3 {
        Ok(Direction::Right)
    } else {
        Err(())
    }
}

pub open spec fn resource_code(r: Resource) -> u32 {
    match r {
        Resource::Copper => 0,
        Resource::Gold => 1,
        Resource::Silicon => 2,
        Resource::Plastic => 3,
    }
}

pub open spec fn resource_of_code(c: u32) -> Result<Resource, ()> {
    if c == 0 {
        Ok(Resource::Copper)
    } else if c == 1 {
        Ok(Resource::Gold)
    } else if c == 2 {
        Ok(Resource::Silicon)
    } else if c == 3 {
        Ok(Resource::Plastic)
    } else {
        Err(())
    }
}

pub open spec fn partial_entity_type_code(t: PartialEntityType) -> u32 {
    match t {
        PartialEntityType::Antenna => 0,
    }
}

pub open spec fn partial_entity_type_of_code(c: u32) -> Result<PartialEntityType, ()> {
    if c == 0 {
        Ok(PartialEntityType::Antenna)
    } else {
        Err(())
    }
}

impl ActionError {
    /// The code for an action outcome: 0 for success, then 1, 2 and 3 for
    /// `ActionNotPossible`, `NotEnoughEnergy` and `AlreadyActed`.
    pub fn rust_to_wasm(result: Result<(), Self>) -> (c: u32)
        ensures
            c == result_code(result),
    {
        match result {
            Ok(()) => 0,
            Err(ActionError::ActionNotPossible) => 1,
            Err(ActionError::NotEnoughEnergy) => 2,
            Err(ActionError::AlreadyActed) => 3,
        }
    }

    /// The action outcome a code stands for; `Err(())` for a code above 3.
    pub fn wasm_to_rust(result: u32) -> (r: Result<Result<(), Self>, ()>)
        ensures
            r == result_of_code(result),
    {
        match result {
            0 => Ok(Ok(())),
            1 => Ok(Err(ActionError::ActionNotPossible)),
            2 => Ok(Err(ActionError::NotEnoughEnergy)),
            3 => Ok(Err(ActionError::AlreadyActed)),
            _ => Err(()),
        }
    }
}

impl Direction {
    /// Up, Down, Left and Right are 0, 1, 2 and 3.
    pub fn rust_to_wasm(&self) -> (c: u32)
        ensures
            c == direction_code(*self),
    {
        match self {
            Direction::Up => 0,
            Direction::Down => 1,
            Direction::Left => 2,
            Direction::Right => 3,
        }
    }

    pub fn wasm_to_rust(direction: u32) -> (r: Result<Self, ()>)
        ensures
            r == direction_of_code(direction),
    {
        match direction {
            0 => Ok(Direction::Up),
            1 => Ok(Direction::Down),
            2 => Ok(Direction::Left),
            3 => Ok(Direction::Right),
            _ => Err(()),
        }
    }
}

impl Resource {
    /// Copper, Gold, Silicon and Plastic are 0, 1, 2 and 3.
    pub fn rust_to_wasm(&self) -> (c: u32)
        ensures
            c == resource_code(*self),
    {
        match self {
            Resource::Copper => 0,
            Resource::Gold => 1,
            Resource::Silicon => 2,
            Resource::Plastic => 3,
        }
    }

    pub fn wasm_to_rust(resource: u32) -> (r: Result<Self, ()>)
        ensures
            r == resource_of_code(resource),
    {
        match resource {
            0 => Ok(Resource::Copper),
            1 => Ok(Resource::Gold),
            2 => Ok(Resource::Silicon),
            3 => Ok(Resource::Plastic),
            _ => Err(()),
        }
    }
}

impl PartialEntityType {
    /// An antenna is 0.
    pub fn rust_to_wasm(&self) -> (c: u32)
        ensures
            c == partial_entity_type_code(*self),
    {
        match self {
            PartialEntityType::Antenna => 0,
        }
    }

    pub fn wasm_to_rust(entity_type: u32) -> (r: Result<Self, ()>)
        ensures
            r == partial_entity_type_of_code(entity_type),
    {
        match entity_type {
            0 => Ok(PartialEntityType::Antenna),
            _ => Err(()),
        }
    }
}

/// Each encoding is read back as the value it was made from.
pub proof fn lemma_codes_round_trip(r: Result<(), ActionError>, d: Direction, res: Resource, t: PartialEntityType)
    ensures
        result_of_code(result_code(r)) == Ok::<Result<(), ActionError>, ()>(r),
        direction_of_code(direction_code(d)) == Ok::<Direction, ()>(d),
        resource_of_code(resource_code(res)) == Ok::<Resource, ()>(res),
        partial_entity_type_of_code(partial_entity_type_code(t)) == Ok::<PartialEntityType, ()>(t),
{
    match r {
        Ok(u) => assert(u == ()),
        Err(_) => {},
    }
}

} // verus!
