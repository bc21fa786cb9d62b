//! Picking up a resource from a neighbouring cell.
use crate::bay::{in_bounds, lemma_wf_in_place, partial_entity_bounded, Bay};
use crate::bot_actions::is_adjacent;
use crate::config::{BAY_SIZE, HARVEST_RESOURCE_ENERGY};
use crate::rules::{check_action, check_harvest_resource, harvested, lemma_antennas_kept};
use crate::types::{ActionError, Bot, BotAction, Entity, EntityID};
use vstd::prelude::*;

verus! {

broadcast use vstd::std_specs::hash::group_hash_axioms;

/// Whether `bot` may pick up the resource at `(x, y)`: it needs the energy
/// and empty hands, and the resource must lie on a neighbouring cell.
pub fn bot_can_harvest_resource(bot: &Bot, x: u32, y: u32, bay: &Bay) -> (r: Result<(), ActionError>)
    requires
        bay.wf(),
    ensures
        r == check_harvest_resource(*bot, x, y, bay@),
{
    if bot.energy < HARVEST_RESOURCE_ENERGY {
        return Err(ActionError::NotEnoughEnergy);
    }
    if bot.held_resource.is_some() {
        return Err(ActionError::ActionNotPossible);
    }
    if x as usize >= BAY_SIZE || y as usize >= BAY_SIZE {
        return Err(ActionError::ActionNotPossible);
    }
    match bay.get_entity_at_position(x, y) {
        Some(Entity::Resource(_)) => {},
        _ => return Err(ActionError::ActionNotPossible),
    }
    if !is_adjacent(bot, x, y) {
        return Err(ActionError::ActionNotPossible);
    }
    Ok(())
}

/// Removes the resource at `(x, y)` from the bay and puts it in the hands of
/// the bot `bot_id`, which pays its energy.
pub fn apply_bot_harvest_resource(bay: &mut Bay, bot_id: EntityID, x: u32, y: u32)
    requires
        old(bay).wf(),
        check_action(old(bay)@, bot_id, BotAction::HarvestResource { x, y }) == Ok::<(), ActionError>(()),
    ensures
        final(bay).wf(),
        final(bay)@ == harvested(old(bay)@, bot_id, x, y),
{
    let ghost v = bay@;
    proof {
        bay.lemma_cell_is_occupant(x as int, y as int);
    }
    let resource_id = bay.cells[x as usize][y as usize].unwrap();
    assert(v.occupies(resource_id, x as int, y as int));
    let resource = *bay.entities.get(&resource_id).unwrap().0.unwrap_as_resource();
    let bot = *bay.get_bot(bot_id).unwrap();
    let harvesting_bot = Bot {
        held_resource: Some(resource),
        energy: bot.energy - HARVEST_RESOURCE_ENERGY,
        ..bot
    };
    bay.entities.insert(bot_id, (Entity::Bot(harvesting_bot), bot.x as u32, bot.y as u32));
    bay.entities.remove(&resource_id);
    bay.cells[x as usize][y as usize] = None;
    proof {
        let w = bay@;
        assert(w.entities =~= harvested(v, bot_id, x, y).entities);
        assert forall|id: EntityID| #[trigger] w.is_antenna(id) <==> v.is_antenna(id) by {}
        lemma_antennas_kept(v, w);
        assert forall|id: EntityID| #[trigger] w.has(id) && w.entity(id) is PartialEntity
            implies partial_entity_bounded(w.entity(id)->PartialEntity_0) by {
            assert(v.has(id));
        }
        lemma_wf_in_place(v, w);
        assert forall|cx: int, cy: int| in_bounds(cx, cy) implies #[trigger] bay.cell(cx, cy) == if old(bay).cell(cx, cy) is Some
            && w.has(old(bay).cell(cx, cy)->0) {
            old(bay).cell(cx, cy)
        } else {
            None
        } by {
            if cx == x && cy == y {
            } else if old(bay).cell(cx, cy) is Some {
                let id = old(bay).cell(cx, cy)->0;
                assert(v.occupies(id, cx, cy));
                if id == resource_id {
                    assert(false);
                }
            }
        }
        bay.lemma_cells_in_place(old(bay));
    }
}

} // verus!
