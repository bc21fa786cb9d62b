//! Queries on entities, and the life of a construction site.
use crate::rules::{finished_entity, fresh_partial_entity, needs};
use crate::types::{Antenna, Entity, EntityID, PartialEntity, PartialEntityType, Resource};
use vstd::prelude::*;

verus! {

impl Entity {
    pub fn is_bot(&self) -> (r: bool)
        ensures
            r == self is Bot,
    {
        match self {
            Entity::Bot(_) => true,
            _ => false,
        }
    }

    /// The entity is an antenna of the player `player_id`.
    pub fn is_antenna_controlled_by(&self, player_id: EntityID) -> (r: bool)
        ensures
            r == (self matches Entity::Antenna(a) && a.controller_id == player_id),
    {
        match self {
            Entity::Antenna(a) => a.controller_id == player_id,
            _ => false,
        }
    }

    pub fn unwrap_as_antenna(&self) -> (r: &Antenna)
        requires
            self is Antenna,
        ensures
            *r == self->Antenna_0,
    {
        match self {
            Entity::Antenna(a) => a,
            _ => {
                proof {
                    assert(false);
                }
                unreached()
            },
        }
    }

    /// The antenna inside this entity, for changing it in place.
    pub fn unwrap_mut_as_antenna(&mut self) -> (r: &mut Antenna)
        requires
            *old(self) is Antenna,
        ensures
            *r == old(self)->Antenna_0,
            *final(self) == Entity::Antenna(*final(r)),
    {
        match self {
            Entity::Antenna(a) => a,
            _ => {
                proof {
                    assert(false);
                }
                unreached()
            },
        }
    }

    pub fn is_resource(&self) -> (r: bool)
        ensures
            r == self is Resource,
    {
        match self {
            Entity::Resource(_) => true,
            _ => false,
        }
    }

    pub fn unwrap_as_resource(&self) -> (r: &Resource)
        requires
            self is Resource,
        ensures
            *r == self->Resource_0,
    {
        match self {
            Entity::Resource(r) => r,
            _ => {
                proof {
                    assert(false);
                }
                unreached()
            },
        }
    }

    /// The entity is a construction site of type `t`.
    pub fn is_partial_entity_of_type(&self, t: PartialEntityType) -> (r: bool)
        ensures
            r == (self matches Entity::PartialEntity(p) && p.entity_type == t),
    {
        match self {
            Entity::PartialEntity(p) => p.entity_type == t,
            _ => false,
        }
    }

    pub fn unwrap_as_partial_entity(&self) -> (r: &PartialEntity)
        requires
            self is PartialEntity,
        ensures
            *r == self->PartialEntity_0,
    {
        match self {
            Entity::PartialEntity(p) => p,
            _ => {
                proof {
                    assert(false);
                }
                unreached()
            },
        }
    }

    /// Turns a finished construction site into the entity it was building,
    /// owned by `controller_id`.
    pub fn partial_entity_into_entity(&mut self, controller_id: EntityID)
        requires
            *old(self) is PartialEntity,
        ensures
            *final(self) == finished_entity(old(self)->PartialEntity_0.entity_type, controller_id),
    {
        let t = self.unwrap_as_partial_entity().entity_type;
        match t {
            PartialEntityType::Antenna => {
                *self = Entity::Antenna(
                    Antenna {
                        controller_id,
                        stored_copper: 0,
                        stored_gold: 0,
                        stored_silicon: 0,
                        stored_plastic: 0,
                    },
                );
            },
        }
    }
}

impl PartialEntityType {
    /// A new construction site of this type that has received nothing yet.
    pub fn new_partial_entity(&self) -> (r: Entity)
        ensures
            r == Entity::PartialEntity(fresh_partial_entity(*self)),
    {
        match self {
            PartialEntityType::Antenna => Entity::PartialEntity(
                PartialEntity {
                    entity_type: *self,
                    contributed_copper: 0,
                    required_copper: 2,
                    contributed_gold: 0,
                    required_gold: 2,
                    contributed_silicon: 0,
                    required_silicon: 2,
                    contributed_plastic: 0,
                    required_plastic: 2,
                },
            ),
        }
    }
}

impl PartialEntity {
    /// The construction still lacks some `resource`.
    pub fn needs_resource(&self, resource: Resource) -> (r: bool)
        ensures
            r == needs(*self, resource),
    {
        match resource {
            Resource::Copper => self.contributed_copper < self.required_copper,
            Resource::Gold => self.contributed_gold < self.required_gold,
            Resource::Silicon => self.contributed_silicon < self.required_silicon,
            Resource::Plastic => self.contributed_plastic < self.required_plastic,
        }
    }
}

} // verus!
