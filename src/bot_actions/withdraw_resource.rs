//! Taking a resource out of a neighbouring antenna.
use crate::bay::{lemma_wf_in_place, partial_entity_bounded, Bay};
use crate::bot_actions::{is_adjacent, stored_count, with_stored_count};
use crate::config::WITHDRAW_RESOURCE_ENERGY;
use crate::rules::{check_action, check_withdraw_resource, lemma_antennas_kept, withdrawn};
use crate::types::{ActionError, Bot, BotAction, Entity, EntityID, Resource};
use vstd::prelude::*;

verus! {

broadcast use vstd::std_specs::hash::group_hash_axioms;

/// Whether `bot` may take one `resource` out of the antenna at `(x, y)`: it
/// needs the energy and empty hands, the antenna must belong to its controller
/// and store some of it, and it must stand on a neighbouring cell.
pub fn bot_can_withdraw_resource(bot: &Bot, resource: Resource, x: u32, y: u32, bay: &Bay) -> (r: Result<(), ActionError>)
    requires
        bay.wf(),
    ensures
        r == check_withdraw_resource(*bot, resource, x, y, bay@),
{
    if bot.energy < WITHDRAW_RESOURCE_ENERGY {
        return Err(ActionError::NotEnoughEnergy);
    }
    if bot.held_resource.is_some() {
        return Err(ActionError::ActionNotPossible);
    }
    let antenna = match bay.get_entity_at_position(x, y) {
        Some(entity) => {
            if !entity.is_antenna_controlled_by(bot.controller_id) {
                return Err(ActionError::ActionNotPossible);
            }
            entity.unwrap_as_antenna()
        },
        None => return Err(ActionError::ActionNotPossible),
    };
    if stored_count(antenna, resource) == 0 {
        return Err(ActionError::ActionNotPossible);
    }
    if !is_adjacent(bot, x, y) {
        return Err(ActionError::ActionNotPossible);
    }
    Ok(())
}

/// Moves one `resource` from the antenna at `(x, y)` into the hands of the
/// bot `bot_id`, which pays its energy.
pub fn apply_bot_withdraw_resource(bay: &mut Bay, bot_id: EntityID, resource: Resource, x: u32, y: u32)
    requires
        old(bay).wf(),
        check_action(old(bay)@, bot_id, BotAction::WithdrawResource { resource, x, y }) == Ok::<(), ActionError>(()),
    ensures
        final(bay).wf(),
        final(bay)@ == withdrawn(old(bay)@, bot_id, resource, x, y),
{
    let ghost v = bay@;
    proof {
        bay.lemma_cell_is_occupant(x as int, y as int);
    }
    let antenna_id = bay.cells[x as usize][y as usize].unwrap();
    assert(v.occupies(antenna_id, x as int, y as int));
    let antenna = *bay.entities.get(&antenna_id).unwrap().0.unwrap_as_antenna();
    let count = stored_count(&antenna, resource);
    let drained = with_stored_count(&antenna, resource, count - 1);
    let bot = *bay.get_bot(bot_id).unwrap();
    let loaded_bot = Bot { held_resource: Some(resource), energy: bot.energy - WITHDRAW_RESOURCE_ENERGY, ..bot };
    bay.entities.insert(bot_id, (Entity::Bot(loaded_bot), bot.x as u32, bot.y as u32));
    bay.entities.insert(antenna_id, (Entity::Antenna(drained), x, y));
    proof {
        let w = bay@;
        assert(w.entities =~= withdrawn(v, bot_id, resource, x, y).entities);
        assert forall|id: EntityID| #[trigger] w.is_antenna(id) <==> v.is_antenna(id) by {}
        lemma_antennas_kept(v, w);
        assert forall|id: EntityID| #[trigger] w.has(id) && w.entity(id) is PartialEntity
            implies partial_entity_bounded(w.entity(id)->PartialEntity_0) by {
            assert(v.has(id));
        }
        lemma_wf_in_place(v, w);
        bay.lemma_cells_in_place(old(bay));
    }
}

} // verus!
