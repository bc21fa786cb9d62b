//! Contributing the held resource to a construction site.
use crate::bay::{in_bounds, partial_entity_bounded, Bay, BayView};
use crate::config::{BAY_SIZE, BUILD_ENTITY_ENERGY};
use crate::rules::{
    built, check_action, check_build_entity, contribute, lemma_antennas_kept, needs, site_after,
};
use crate::types::{ActionError, Bot, BotAction, Entity, EntityID, PartialEntity, PartialEntityType, Resource};
use std::sync::atomic::{AtomicU64, Ordering};
use vstd::prelude::*;

verus! {

broadcast use vstd::std_specs::hash::group_hash_axioms;

/// Whether `bot` may give its held resource towards a `entity_type` at
/// `(x, y)`. It needs the energy and a resource. In a controlled bay only the
/// controller's bots build, and never an antenna; in a bay without controller
/// only an antenna can be built. The cell must lie on the grid and be empty,
/// or hold a construction of that type that still needs the resource.
pub fn bot_can_build_entity(bot: &Bot, entity_type: PartialEntityType, x: u32, y: u32, bay: &Bay) -> (r: Result<(), ActionError>)
    requires
        bay.wf(),
    ensures
        r == check_build_entity(*bot, entity_type, x, y, bay@),
{
    if bot.energy < BUILD_ENTITY_ENERGY {
        return Err(ActionError::NotEnoughEnergy);
    }
    match bay.controller_id {
        Some(bay_controller_id) => {
            if bot.controller_id != bay_controller_id {
                return Err(ActionError::ActionNotPossible);
            }
            if entity_type == PartialEntityType::Antenna {
                return Err(ActionError::ActionNotPossible);
            }
        },
        None => {
            if entity_type != PartialEntityType::Antenna {
                return Err(ActionError::ActionNotPossible);
            }
        },
    }
    let resource = match bot.held_resource {
        Some(resource) => resource,
        None => return Err(ActionError::ActionNotPossible),
    };
    if x as usize >= BAY_SIZE || y as usize >= BAY_SIZE {
        return Err(ActionError::ActionNotPossible);
    }
    match bay.get_entity_at_position(x, y) {
        None => {},
        Some(Entity::PartialEntity(partial_entity)) => {
            if partial_entity.entity_type != entity_type || !partial_entity.needs_resource(resource) {
                return Err(ActionError::ActionNotPossible);
            }
        },
        Some(_) => return Err(ActionError::ActionNotPossible),
    }
    Ok(())
}

/// The construction after receiving one more `r`.
fn contribute_resource(p: &PartialEntity, r: Resource) -> (q: PartialEntity)
    requires
        needs(*p, r),
    ensures
        q == contribute(*p, r),
{
    match r {
        Resource::Copper => PartialEntity { contributed_copper: p.contributed_copper + 1, ..*p },
        Resource::Gold => PartialEntity { contributed_gold: p.contributed_gold + 1, ..*p },
        Resource::Silicon => PartialEntity { contributed_silicon: p.contributed_silicon + 1, ..*p },
        Resource::Plastic => PartialEntity { contributed_plastic: p.contributed_plastic + 1, ..*p },
    }
}

/// Gives the resource held by the bot `bot_id` towards a `entity_type` at
/// `(x, y)`, where `allocated` is the id the allocator handed out in case the
/// cell is empty. A construction that receives all it needs becomes the
/// finished entity, owned by the bot's controller; a finished antenna makes
/// that controller the bay's.
pub fn commit_build_entity(
    bay: &mut Bay,
    bot_id: EntityID,
    entity_type: PartialEntityType,
    x: u32,
    y: u32,
    allocated: EntityID,
)
    requires
        old(bay).wf(),
        check_action(old(bay)@, bot_id, BotAction::BuildEntity { entity_type, x, y }) == Ok::<(), ActionError>(()),
    ensures
        final(bay).wf(),
        final(bay)@ == built(old(bay)@, bot_id, entity_type, x, y, allocated),
{
    let ghost v = bay@;
    proof {
        bay.lemma_cell_is_occupant(x as int, y as int);
    }
    let bot = *bay.get_bot(bot_id).unwrap();
    let resource = bot.held_resource.unwrap();
    let existing = bay.cells[x as usize][y as usize];
    let (site_id, site) = match existing {
        Some(partial_id) => {
            assert(v.occupies(partial_id, x as int, y as int));
            (partial_id, *bay.entities.get(&partial_id).unwrap().0.unwrap_as_partial_entity())
        },
        None => {
            let id = bay.fresh_entity_id(allocated);
            let fresh = entity_type.new_partial_entity();
            (id, *fresh.unwrap_as_partial_entity())
        },
    };
    let grown = contribute_resource(&site, resource);
    assert(grown == site_after(v, entity_type, resource, x, y));
    let done = grown.contributed_copper == grown.required_copper
        && grown.contributed_gold == grown.required_gold
        && grown.contributed_silicon == grown.required_silicon
        && grown.contributed_plastic == grown.required_plastic;
    let mut entity = Entity::PartialEntity(grown);
    if done {
        entity.partial_entity_into_entity(bot.controller_id);
    }
    let spent_bot = Bot { held_resource: None, energy: bot.energy - BUILD_ENTITY_ENERGY, ..bot };
    bay.entities.insert(bot_id, (Entity::Bot(spent_bot), bot.x as u32, bot.y as u32));
    bay.entities.insert(site_id, (entity, x, y));
    bay.cells[x as usize][y as usize] = Some(site_id);
    if done && grown.entity_type == PartialEntityType::Antenna {
        bay.controller_id = Some(bot.controller_id);
    }
    proof {
        let w = bay@;
        assert(w.entities =~= built(v, bot_id, entity_type, x, y, allocated).entities);
        assert(site_id != bot_id);
        lemma_build_keeps_layout(v, w, bot_id, site_id, x as int, y as int);
        assert forall|id: EntityID| #[trigger] w.has(id) implies bay.cell(w.pos_x(id), w.pos_y(id)) == Some(id) by {
            if id != site_id && id != bot_id {
                assert(v.has(id));
                assert(old(bay).cell(v.pos_x(id), v.pos_y(id)) == Some(id));
                if v.pos_x(id) == x && v.pos_y(id) == y {
                    assert(v.occupies(id, x as int, y as int));
                }
            } else if id == bot_id {
                assert(v.has(id));
                assert(old(bay).cell(v.pos_x(id), v.pos_y(id)) == Some(id));
            }
        }
        assert forall|cx: int, cy: int| #[trigger] bay.cell(cx, cy) is Some && in_bounds(cx, cy)
            implies w.occupies(bay.cell(cx, cy)->0, cx, cy) by {
            if !(cx == x && cy == y) {
                assert(old(bay).cell(cx, cy) == bay.cell(cx, cy));
                let id = bay.cell(cx, cy)->0;
                assert(v.occupies(id, cx, cy));
                if id == site_id {
                    assert(v.has(site_id));
                    assert(v.occupies(site_id, x as int, y as int));
                    crate::rules::lemma_single_occupant(v, existing->0, site_id, x as int, y as int);
                }
            }
        }
    }
}

/// The table after a build contribution keeps the layout rules.
proof fn lemma_build_keeps_layout(v: BayView, w: BayView, bot_id: EntityID, site_id: EntityID, x: int, y: int)
    requires
        v.wf(),
        v.is_bot(bot_id),
        in_bounds(x, y),
        site_id != bot_id,
        v.has(site_id) ==> v.occupies(site_id, x, y) && v.entity(site_id) is PartialEntity,
        !v.has(site_id) ==> v.is_vacant(x, y),
        w.entities == v.entities.insert(bot_id, (w.entity(bot_id), v.entities[bot_id].1, v.entities[bot_id].2)).insert(
            site_id,
            (w.entity(site_id), x as u32, y as u32),
        ),
        w.entity(bot_id) is Bot,
        w.bot(bot_id).id == v.bot(bot_id).id,
        w.bot(bot_id).x == v.bot(bot_id).x,
        w.bot(bot_id).y == v.bot(bot_id).y,
        w.entity(site_id) is PartialEntity ==> partial_entity_bounded(w.entity(site_id)->PartialEntity_0),
        w.entity(site_id) is PartialEntity || w.entity(site_id) is Antenna,
        w.entity(site_id) is Antenna ==> v.controller_id is None && w.controller_id == Some(
            w.entity(site_id)->Antenna_0.controller_id,
        ),
        w.entity(site_id) is PartialEntity ==> w.controller_id == v.controller_id,
    ensures
        w.wf(),
{
    assert(w.entities.dom() =~= v.entities.dom().insert(site_id));
    assert forall|a: EntityID, b: EntityID|
        #[trigger] w.has(a) && #[trigger] w.has(b) && w.pos_x(a) == w.pos_x(b) && w.pos_y(a) == w.pos_y(b)
        implies a == b by {
        if a != site_id && b != site_id {
            assert(v.has(a) && v.has(b));
        } else if a == site_id && b != site_id {
            assert(v.occupies(b, x, y));
            if v.has(site_id) {
                crate::rules::lemma_single_occupant(v, b, site_id, x, y);
            }
        } else if b == site_id && a != site_id {
            assert(v.occupies(a, x, y));
            if v.has(site_id) {
                crate::rules::lemma_single_occupant(v, a, site_id, x, y);
            }
        }
    }
    assert forall|id: EntityID| #[trigger] w.has(id) implies in_bounds(w.pos_x(id), w.pos_y(id)) by {
        if id != site_id {
            assert(v.has(id));
        }
    }
    assert forall|id: EntityID| #[trigger] w.is_bot(id) implies {
        let b = w.bot(id);
        b.id == id && b.x == w.pos_x(id) && b.y == w.pos_y(id)
    } by {
        if id != site_id {
            assert(v.is_bot(id));
        }
    }
    assert forall|id: EntityID| #[trigger] w.has(id) && w.entity(id) is PartialEntity
        implies partial_entity_bounded(w.entity(id)->PartialEntity_0) by {
        if id != site_id {
            assert(v.has(id));
        }
    }
    if w.entity(site_id) is Antenna {
        assert forall|b: EntityID| #[trigger] w.is_antenna(b) implies b == site_id by {
            if b != site_id {
                assert(v.is_antenna(b));
            }
        }
        assert(w.is_antenna(site_id));
    } else {
        assert forall|id: EntityID| #[trigger] w.is_antenna(id) <==> v.is_antenna(id) by {
            if id == site_id && v.has(site_id) {
                assert(v.entity(site_id) is PartialEntity);
            }
        }
        lemma_antennas_kept(v, w);
    }
}

} // verus!

verus! {

/// Gives the resource held by the bot `bot_id` towards a `entity_type` at
/// `(x, y)`. A new construction site takes its id from `next_entity_id`; the
/// allocator's value is used unless the bay already holds it (see
/// [`crate::rules::fresh_id`]).
pub fn apply_bot_build_entity(
    bay: &mut Bay,
    bot_id: EntityID,
    entity_type: PartialEntityType,
    x: u32,
    y: u32,
    next_entity_id: &AtomicU64,
)
    requires
        old(bay).wf(),
        check_action(old(bay)@, bot_id, BotAction::BuildEntity { entity_type, x, y }) == Ok::<(), ActionError>(()),
    ensures
        final(bay).wf(),
        exists|n: EntityID| final(bay)@ == built(old(bay)@, bot_id, entity_type, x, y, n),
{
    let allocated = if bay.cells[x as usize][y as usize].is_none() {
        next_entity_id.fetch_add(1, Ordering::SeqCst)
    } else {
        0
    };
    commit_build_entity(bay, bot_id, entity_type, x, y, allocated);
}

} // verus!
