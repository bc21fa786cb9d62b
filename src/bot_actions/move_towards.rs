//! Moving one cell in a direction.
use crate::bay::{in_bounds, partial_entity_bounded, Bay};
use crate::config::{BAY_SIZE, MOVE_TOWARDS_ENERGY};
use crate::rules::{check_action, check_move_towards, lemma_antennas_kept, moved, neighbor};
use crate::types::{ActionError, Bot, BotAction, Direction, Entity, EntityID};
use vstd::prelude::*;

verus! {

broadcast use vstd::std_specs::hash::group_hash_axioms;

/// Whether `bot` may move one cell towards `direction`: it needs the energy,
/// and the cell there must exist and be empty.
pub fn bot_can_move_towards(bot: &Bot, direction: Direction, bay: &Bay) -> (r: Result<(), ActionError>)
    requires
        bay.wf(),
    ensures
        r == check_move_towards(*bot, direction, bay@),
{
    if bot.energy < MOVE_TOWARDS_ENERGY {
        return Err(ActionError::NotEnoughEnergy);
    }
    let target: Option<(usize, usize)> = match direction {
        Direction::Up => if bot.y != 0 { Some((bot.x, bot.y - 1)) } else { None },
        Direction::Down => if bot.y < BAY_SIZE - 1 { Some((bot.x, bot.y + 1)) } else { None },
        Direction::Left => if bot.x != 0 { Some((bot.x - 1, bot.y)) } else { None },
        Direction::Right => if bot.x < BAY_SIZE - 1 { Some((bot.x + 1, bot.y)) } else { None },
    };
    let ghost (nx, ny) = neighbor(bot.x as int, bot.y as int, direction);
    match target {
        Some((x, y)) => {
            assert(x == nx && y == ny);
            if x < BAY_SIZE && y < BAY_SIZE {
                proof {
                    bay.lemma_cell_is_occupant(nx, ny);
                }
                if bay.cells[x][y].is_none() {
                    Ok(())
                } else {
                    Err(ActionError::ActionNotPossible)
                }
            } else {
                Err(ActionError::ActionNotPossible)
            }
        },
        None => {
            assert(!in_bounds(nx, ny));
            Err(ActionError::ActionNotPossible)
        },
    }
}

/// Moves the bot `bot_id` one cell towards `direction`, paying its energy.
pub fn apply_bot_move_towards(bay: &mut Bay, bot_id: EntityID, direction: Direction)
    requires
        old(bay).wf(),
        check_action(old(bay)@, bot_id, BotAction::MoveTowards(direction)) == Ok::<(), ActionError>(()),
    ensures
        final(bay).wf(),
        final(bay)@ == moved(old(bay)@, bot_id, direction),
{
    let ghost v = bay@;
    let bot = *bay.get_bot(bot_id).unwrap();
    assert(bot == v.bot(bot_id));
    let (old_x, old_y) = (bot.x, bot.y);
    let (new_x, new_y): (usize, usize) = match direction {
        Direction::Up => (bot.x, bot.y - 1),
        Direction::Down => (bot.x, bot.y + 1),
        Direction::Left => (bot.x - 1, bot.y),
        Direction::Right => (bot.x + 1, bot.y),
    };
    let moved_bot = Bot {
        x: new_x,
        y: new_y,
        energy: bot.energy - MOVE_TOWARDS_ENERGY,
        ..bot
    };
    bay.cells[old_x][old_y] = None;
    bay.cells[new_x][new_y] = Some(bot_id);
    bay.entities.insert(bot_id, (Entity::Bot(moved_bot), new_x as u32, new_y as u32));
    proof {
        let w = bay@;
        assert(w == moved(v, bot_id, direction));
        assert(v.occupies(bot_id, old_x as int, old_y as int));
        assert forall|id: EntityID| #[trigger] w.is_antenna(id) <==> v.is_antenna(id) by {}
        lemma_antennas_kept(v, w);
        assert forall|a: EntityID, b: EntityID|
            #[trigger] w.has(a) && #[trigger] w.has(b) && w.pos_x(a) == w.pos_x(b) && w.pos_y(a) == w.pos_y(b)
            implies a == b by {
            if a == bot_id && b != bot_id {
                assert(v.occupies(b, new_x as int, new_y as int));
            } else if b == bot_id && a != bot_id {
                assert(v.occupies(a, new_x as int, new_y as int));
            } else if a != bot_id && b != bot_id {
                assert(v.has(a) && v.has(b));
            }
        }
        assert(w.entities.dom().finite());
        assert forall|id: EntityID| #[trigger] w.has(id) implies in_bounds(w.pos_x(id), w.pos_y(id)) by {
            if id != bot_id {
                assert(v.has(id));
            }
        }
        assert forall|id: EntityID| #[trigger] w.is_bot(id) implies {
            let b = w.bot(id);
            b.id == id && b.x == w.pos_x(id) && b.y == w.pos_y(id)
        } by {
            if id != bot_id {
                assert(v.is_bot(id));
            }
        }
        assert forall|id: EntityID| #[trigger] w.has(id) && w.entity(id) is PartialEntity
            implies partial_entity_bounded(w.entity(id)->PartialEntity_0) by {
            assert(v.has(id));
        }
        assert(w.wf());
        assert forall|id: EntityID| #[trigger] w.has(id) implies bay.cell(w.pos_x(id), w.pos_y(id)) == Some(id) by {
            if id != bot_id {
                assert(v.has(id));
                assert(old(bay).cell(v.pos_x(id), v.pos_y(id)) == Some(id));
                if v.pos_x(id) == old_x && v.pos_y(id) == old_y {
                    assert(v.occupies(id, old_x as int, old_y as int));
                }
                if v.pos_x(id) == new_x && v.pos_y(id) == new_y {
                    assert(v.occupies(id, new_x as int, new_y as int));
                }
            }
        }
        assert forall|x: int, y: int| #[trigger] bay.cell(x, y) is Some && in_bounds(x, y)
            implies w.occupies(bay.cell(x, y)->0, x, y) by {
            if !(x == new_x && y == new_y) && !(x == old_x && y == old_y) {
                assert(old(bay).cell(x, y) == bay.cell(x, y));
                let id = bay.cell(x, y)->0;
                assert(v.occupies(id, x, y));
                if id == bot_id {
                    assert(false);
                }
            }
        }
    }
}

} // verus!
