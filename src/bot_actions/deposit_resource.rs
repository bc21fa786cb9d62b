//! Putting the held resource into a neighbouring antenna.
use crate::bay::{lemma_wf_in_place, partial_entity_bounded, Bay};
use crate::bot_actions::{is_adjacent, stored_count, with_stored_count};
use crate::config::DEPOSIT_RESOURCE_ENERGY;
use crate::rules::{check_action, check_deposit_resource, deposited, lemma_antennas_kept};
use crate::types::{ActionError, Bot, BotAction, Entity, EntityID};
use vstd::prelude::*;

verus! {

broadcast use vstd::std_specs::hash::group_hash_axioms;

/// Whether `bot` may put its resource into the antenna at `(x, y)`: it needs
/// the energy and a resource, the antenna must belong to its controller and
/// have room for one more, and it must stand on a neighbouring cell.
pub fn bot_can_deposit_resource(bot: &Bot, x: u32, y: u32, bay: &Bay) -> (r: Result<(), ActionError>)
    requires
        bay.wf(),
    ensures
        r == check_deposit_resource(*bot, x, y, bay@),
{
    if bot.energy < DEPOSIT_RESOURCE_ENERGY {
        return Err(ActionError::NotEnoughEnergy);
    }
    let resource = match bot.held_resource {
        Some(resource) => resource,
        None => return Err(ActionError::ActionNotPossible),
    };
    let antenna = match bay.get_entity_at_position(x, y) {
        Some(entity) => {
            if !entity.is_antenna_controlled_by(bot.controller_id) {
                return Err(ActionError::ActionNotPossible);
            }
            entity.unwrap_as_antenna()
        },
        None => return Err(ActionError::ActionNotPossible),
    };
    if stored_count(antenna, resource) == u8::MAX {
        return Err(ActionError::ActionNotPossible);
    }
    if !is_adjacent(bot, x, y) {
        return Err(ActionError::ActionNotPossible);
    }
    Ok(())
}

/// Moves the resource held by the bot `bot_id` into the antenna at `(x, y)`;
/// the bot pays its energy.
pub fn apply_bot_deposit_resource(bay: &mut Bay, bot_id: EntityID, x: u32, y: u32)
    requires
        old(bay).wf(),
        check_action(old(bay)@, bot_id, BotAction::DepositResource { x, y }) == Ok::<(), ActionError>(()),
    ensures
        final(bay).wf(),
        final(bay)@ == deposited(old(bay)@, bot_id, x, y),
{
    let ghost v = bay@;
    proof {
        bay.lemma_cell_is_occupant(x as int, y as int);
    }
    let antenna_id = bay.cells[x as usize][y as usize].unwrap();
    assert(v.occupies(antenna_id, x as int, y as int));
    let antenna = *bay.entities.get(&antenna_id).unwrap().0.unwrap_as_antenna();
    let bot = *bay.get_bot(bot_id).unwrap();
    let resource = bot.held_resource.unwrap();
    let count = stored_count(&antenna, resource);
    let filled = with_stored_count(&antenna, resource, count + 1);
    let emptied_bot = Bot { held_resource: None, energy: bot.energy - DEPOSIT_RESOURCE_ENERGY, ..bot };
    bay.entities.insert(bot_id, (Entity::Bot(emptied_bot), bot.x as u32, bot.y as u32));
    bay.entities.insert(antenna_id, (Entity::Antenna(filled), x, y));
    proof {
        let w = bay@;
        assert(w.entities =~= deposited(v, bot_id, x, y).entities);
        assert forall|id: EntityID| #[trigger] w.is_antenna(id) <==> v.is_antenna(id) by {}
        lemma_antennas_kept(v, w);
        assert forall|id: EntityID| #[trigger] w.has(id) && w.entity(id) is PartialEntity
            implies partial_entity_bounded(w.entity(id)->PartialEntity_0) by {
            assert(v.has(id));
        }
        lemma_wf_in_place(v, w);
        bay.lemma_cells_in_place(old(bay));
    }
}

} // verus!
