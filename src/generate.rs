//! Generating a fresh bay with bots and resources at random places.
use crate::bay::{in_bounds, Bay, BayView};
use crate::config::{BAY_SIZE, INITIAL_BOTS_PER_BAY, INITIAL_BOT_ENERGY, INITIAL_RESOURCES_PER_BAY};
use crate::types::{Bot, Entity, EntityID, Resource};
use std::collections::HashMap;
use std::sync::atomic::{AtomicU64, Ordering};
use vstd::prelude::*;

verus! {

broadcast use vstd::std_specs::hash::group_hash_axioms;

/// Relies on `rand::Rng::gen_range` over the thread's generator: a value
/// drawn from `0..bound` (the call panics on an empty range, hence `bound > 0`).
#[verifier::external_body]
fn random_below(bound: usize) -> (r: usize)
    requires
        bound > 0,
    ensures
        r < bound,
{
    rand::Rng::gen_range(&mut rand::thread_rng(), 0..bound)
}

/// The entity is a bot of a new bay: it belongs to `player`, has its starting
/// energy and holds nothing.
pub open spec fn is_starting_bot(v: BayView, id: EntityID, player: EntityID) -> bool {
    &&& v.is_bot(id)
    &&& v.bot(id).controller_id == player
    &&& v.bot(id).energy == INITIAL_BOT_ENERGY
    &&& v.bot(id).held_resource is None
}

/// The bay holds only bots of `player` fresh from the start, and resources.
pub open spec fn holds_starting_entities(v: BayView, player: EntityID) -> bool {
    forall|id: EntityID| #[trigger] v.has(id) ==> is_starting_bot(v, id, player) || v.entity(id) is Resource
}

/// The empty cells of the bay, each listed once.
pub open spec fn lists_free_cells(bay: &Bay, free: Seq<(usize, usize)>) -> bool {
    &&& free.no_duplicates()
    &&& forall|p: (usize, usize)| #[trigger] free.contains(p) <==> in_bounds(p.0 as int, p.1 as int) && bay.cell(p.0 as int, p.1 as int) is None
    &&& free.len() + bay@.entities.dom().len() == BAY_SIZE * BAY_SIZE
}

proof fn lemma_swap_remove(s: Seq<(usize, usize)>, i: int)
    requires
        s.no_duplicates(),
        0 <= i < s.len(),
    ensures
        s.update(i, s.last()).drop_last().no_duplicates(),
        s.update(i, s.last()).drop_last().len() == s.len() - 1,
        forall|p: (usize, usize)| #[trigger] s.update(i, s.last()).drop_last().contains(p) <==> s.contains(p) && p != s[i],
{
    let t = s.update(i, s.last()).drop_last();
    assert forall|p: (usize, usize)| #[trigger] t.contains(p) <==> s.contains(p) && p != s[i] by {
        if t.contains(p) {
            let j = choose|j: int| 0 <= j < t.len() && t[j] == p;
            if j == i {
                assert(s[s.len() - 1] == p);
            } else {
                assert(s[j] == p);
            }
        }
        if s.contains(p) && p != s[i] {
            let j = choose|j: int| 0 <= j < s.len() && s[j] == p;
            if j == s.len() - 1 {
                assert(t[i] == p);
            } else {
                assert(t[j] == p);
            }
        }
    }
}

impl Bay {
    /// Puts a new entity on a random empty cell, taking its id from
    /// `next_entity_id`: a bot of `controller` with its starting energy, or,
    /// without a controller, a random resource.
    fn place_new_entity(&mut self, free: &mut Vec<(usize, usize)>, next_entity_id: &AtomicU64, controller: Option<EntityID>)
        requires
            old(self).wf(),
            old(self)@.controller_id is None,
            lists_free_cells(old(self), old(free)@),
            old(free).len() > 0,
        ensures
            final(self).wf(),
            final(self)@.controller_id is None,
            lists_free_cells(final(self), final(free)@),
            exists|id: EntityID| {
                &&& !old(self)@.has(id)
                &&& final(self)@.entities.dom() == old(self)@.entities.dom().insert(id)
                &&& forall|k: EntityID| k != id ==> #[trigger] final(self)@.entities[k] == old(self)@.entities[k]
                &&& match controller {
                    Some(c) => is_starting_bot(final(self)@, id, c),
                    None => final(self)@.entity(id) is Resource,
                }
            },
    {
        let ghost v = self@;
        let k = random_below(free.len());
        let (x, y) = free[k];
        proof {
            lemma_swap_remove(free@, k as int);
        }
        free.swap_remove(k);
        let n = next_entity_id.fetch_add(1, Ordering::SeqCst);
        let id = self.fresh_entity_id(n);
        let entity = match controller {
            Some(c) => Entity::Bot(
                Bot {
                    id,
                    controller_id: c,
                    energy: INITIAL_BOT_ENERGY,
                    held_resource: None,
                    x,
                    y,
                },
            ),
            None => Entity::Resource(
                match random_below(4) {
                    0 => Resource::Copper,
                    1 => Resource::Gold,
                    2 => Resource::Silicon,
                    _ => Resource::Plastic,
                },
            ),
        };
        assert(old(free)@.contains((x, y)));
        proof {
            self.lemma_cell_is_occupant(x as int, y as int);
        }
        self.entities.insert(id, (entity, x as u32, y as u32));
        self.cells[x][y] = Some(id);
        proof {
            let w = self@;
            assert(w.entities.dom() =~= v.entities.dom().insert(id));
            assert forall|a: EntityID, b: EntityID|
                #[trigger] w.has(a) && #[trigger] w.has(b) && w.pos_x(a) == w.pos_x(b) && w.pos_y(a) == w.pos_y(b)
                implies a == b by {
                if a != id && b != id {
                    assert(v.has(a) && v.has(b));
                } else if a == id && b != id {
                    assert(v.occupies(b, x as int, y as int));
                } else if b == id && a != id {
                    assert(v.occupies(a, x as int, y as int));
                }
            }
            assert forall|j: EntityID| #[trigger] w.has(j) implies in_bounds(w.pos_x(j), w.pos_y(j)) by {
                if j != id {
                    assert(v.has(j));
                }
            }
            assert forall|j: EntityID| #[trigger] w.is_bot(j) implies {
                let b = w.bot(j);
                b.id == j && b.x == w.pos_x(j) && b.y == w.pos_y(j)
            } by {
                if j != id {
                    assert(v.is_bot(j));
                }
            }
            assert forall|j: EntityID| #[trigger] w.has(j) && w.entity(j) is PartialEntity
                implies crate::bay::partial_entity_bounded(w.entity(j)->PartialEntity_0) by {
                assert(v.has(j));
            }
            assert forall|j: EntityID| !#[trigger] w.is_antenna(j) by {
                if j != id {
                    assert(!v.is_antenna(j));
                }
            }
            assert(w.wf());
            assert forall|j: EntityID| #[trigger] w.has(j) implies self.cell(w.pos_x(j), w.pos_y(j)) == Some(j) by {
                if j != id {
                    assert(v.has(j));
                    assert(old(self).cell(v.pos_x(j), v.pos_y(j)) == Some(j));
                    if v.pos_x(j) == x && v.pos_y(j) == y {
                        assert(v.occupies(j, x as int, y as int));
                    }
                }
            }
            assert forall|cx: int, cy: int| #[trigger] self.cell(cx, cy) is Some && in_bounds(cx, cy)
                implies w.occupies(self.cell(cx, cy)->0, cx, cy) by {
                if !(cx == x && cy == y) {
                    assert(old(self).cell(cx, cy) == self.cell(cx, cy));
                    assert(v.occupies(self.cell(cx, cy)->0, cx, cy));
                }
            }
            assert forall|p: (usize, usize)| #[trigger] free@.contains(p) <==> in_bounds(p.0 as int, p.1 as int)
                && self.cell(p.0 as int, p.1 as int) is None by {
                if !(p.0 == x && p.1 == y) && in_bounds(p.0 as int, p.1 as int) {
                    assert(old(self).cell(p.0 as int, p.1 as int) == self.cell(p.0 as int, p.1 as int));
                    assert(old(free)@.contains(p) <==> free@.contains(p));
                }
            }
            assert(!v.entities.dom().contains(id));
        }
    }

    /// A new bay without controller, holding `INITIAL_BOTS_PER_BAY` bots of the
    /// player `test_player_id` with their starting energy and empty hands, and
    /// `INITIAL_RESOURCES_PER_BAY` resources, each on a random empty cell.
    /// Ids come from `next_entity_id`.
    pub fn new(next_entity_id: &AtomicU64, test_player_id: EntityID) -> (bay: Bay)
        ensures
            bay.wf(),
            bay@.controller_id is None,
            holds_starting_entities(bay@, test_player_id),
            bay@.bot_ids().len() == INITIAL_BOTS_PER_BAY,
            bay@.resource_ids().len() == INITIAL_RESOURCES_PER_BAY,
    {
        let mut bay = Bay { entities: HashMap::new(), cells: [[None; BAY_SIZE]; BAY_SIZE], controller_id: None };
        assert(bay@.entities.dom() =~= Set::<EntityID>::empty());
        assert forall|x: int, y: int| in_bounds(x, y) implies #[trigger] bay.cell(x, y) is None by {}
        let mut free: Vec<(usize, usize)> = Vec::new();
        let mut x: usize = 0;
        while x < BAY_SIZE
            invariant
                x <= BAY_SIZE,
                free@.no_duplicates(),
                free.len() == x * BAY_SIZE,
                forall|p: (usize, usize)| #[trigger] free@.contains(p) <==> p.0 < x && p.1 < BAY_SIZE,
            decreases BAY_SIZE - x,
        {
            let mut y: usize = 0;
            while y < BAY_SIZE
                invariant
                    x < BAY_SIZE,
                    y <= BAY_SIZE,
                    free@.no_duplicates(),
                    free.len() == x * BAY_SIZE + y,
                    forall|p: (usize, usize)| #[trigger] free@.contains(p) <==> (p.0 < x && p.1 < BAY_SIZE) || (p.0 == x && p.1 < y),
                decreases BAY_SIZE - y,
            {
                let ghost before = free@;
                assert(!before.contains((x, y)));
                free.push((x, y));
                proof {
                    assert forall|i: int, j: int| 0 <= i < j < free@.len() implies free@[i] != free@[j] by {
                        if j == free@.len() - 1 {
                            assert(before[i] == free@[i]);
                        } else {
                            assert(before[i] == free@[i] && before[j] == free@[j]);
                        }
                    }
                    assert forall|p: (usize, usize)| #[trigger] free@.contains(p) <==> before.contains(p) || p == (x, y) by {
                        if free@.contains(p) {
                            let j = choose|j: int| 0 <= j < free@.len() && free@[j] == p;
                            if j < before.len() {
                                assert(before[j] == p);
                            }
                        }
                        if before.contains(p) {
                            let j = choose|j: int| 0 <= j < before.len() && before[j] == p;
                            assert(free@[j] == p);
                        }
                        assert(free@[free@.len() - 1] == (x, y));
                    }
                }
                y = y + 1;
            }
            x = x + 1;
        }
        assert(bay.wf());
        assert(bay@.bot_ids() =~= Set::<EntityID>::empty());
        assert(bay@.resource_ids() =~= Set::<EntityID>::empty());
        let mut placed_bots: usize = 0;
        while placed_bots < INITIAL_BOTS_PER_BAY
            invariant
                placed_bots <= INITIAL_BOTS_PER_BAY,
                bay.wf(),
                bay@.controller_id is None,
                lists_free_cells(&bay, free@),
                bay@.entities.dom().len() == placed_bots,
                holds_starting_entities(bay@, test_player_id),
                bay@.bot_ids().len() == placed_bots,
                bay@.resource_ids().len() == 0,
            decreases INITIAL_BOTS_PER_BAY - placed_bots,
        {
            let ghost v = bay@;
            bay.place_new_entity(&mut free, next_entity_id, Some(test_player_id));
            proof {
                let id = choose|id: EntityID| {
                    &&& !v.has(id)
                    &&& bay@.entities.dom() == v.entities.dom().insert(id)
                    &&& forall|k: EntityID| k != id ==> #[trigger] bay@.entities[k] == v.entities[k]
                    &&& is_starting_bot(bay@, id, test_player_id)
                };
                lemma_added_entity(v, bay@, id, test_player_id);
            }
            placed_bots = placed_bots + 1;
        }
        let mut placed_resources: usize = 0;
        while placed_resources < INITIAL_RESOURCES_PER_BAY
            invariant
                placed_resources <= INITIAL_RESOURCES_PER_BAY,
                bay.wf(),
                bay@.controller_id is None,
                lists_free_cells(&bay, free@),
                bay@.entities.dom().len() == INITIAL_BOTS_PER_BAY + placed_resources,
                holds_starting_entities(bay@, test_player_id),
                bay@.bot_ids().len() == INITIAL_BOTS_PER_BAY,
                bay@.resource_ids().len() == placed_resources,
            decreases INITIAL_RESOURCES_PER_BAY - placed_resources,
        {
            let ghost v = bay@;
            bay.place_new_entity(&mut free, next_entity_id, None);
            proof {
                let id = choose|id: EntityID| {
                    &&& !v.has(id)
                    &&& bay@.entities.dom() == v.entities.dom().insert(id)
                    &&& forall|k: EntityID| k != id ==> #[trigger] bay@.entities[k] == v.entities[k]
                    &&& bay@.entity(id) is Resource
                };
                lemma_added_entity(v, bay@, id, test_player_id);
            }
            placed_resources = placed_resources + 1;
        }
        bay
    }
}

/// Adding one starting bot or one resource to a bay adds it to the matching
/// set of ids and keeps the others.
proof fn lemma_added_entity(v: BayView, w: BayView, id: EntityID, player: EntityID)
    requires
        v.entities.dom().finite(),
        holds_starting_entities(v, player),
        !v.has(id),
        w.entities.dom() == v.entities.dom().insert(id),
        forall|k: EntityID| k != id ==> #[trigger] w.entities[k] == v.entities[k],
        is_starting_bot(w, id, player) || w.entity(id) is Resource,
    ensures
        holds_starting_entities(w, player),
        w.entities.dom().len() == v.entities.dom().len() + 1,
        is_starting_bot(w, id, player) ==> w.bot_ids().len() == v.bot_ids().len() + 1 && w.resource_ids() == v.resource_ids(),
        w.entity(id) is Resource ==> w.resource_ids().len() == v.resource_ids().len() + 1 && w.bot_ids() == v.bot_ids(),
{
    v.entities.dom().lemma_len_filter(|k: EntityID| v.is_bot(k));
    v.entities.dom().lemma_len_filter(|k: EntityID| v.has(k) && v.entity(k) is Resource);
    assert forall|k: EntityID| #[trigger] w.has(k) implies is_starting_bot(w, k, player) || w.entity(k) is Resource by {
        if k != id {
            assert(v.has(k));
            assert(w.entities[k] == v.entities[k]);
        }
    }
    if is_starting_bot(w, id, player) {
        assert forall|k: EntityID| #[trigger] w.bot_ids().contains(k) <==> v.bot_ids().insert(id).contains(k) by {
            if k != id && w.has(k) {
                assert(w.entities[k] == v.entities[k]);
            }
        }
        assert(w.bot_ids() =~= v.bot_ids().insert(id));
        assert forall|k: EntityID| #[trigger] w.resource_ids().contains(k) <==> v.resource_ids().contains(k) by {
            if k != id && w.has(k) {
                assert(w.entities[k] == v.entities[k]);
            }
        }
        assert(w.resource_ids() =~= v.resource_ids());
    } else {
        assert forall|k: EntityID| #[trigger] w.resource_ids().contains(k) <==> v.resource_ids().insert(id).contains(k) by {
            if k != id && w.has(k) {
                assert(w.entities[k] == v.entities[k]);
            }
        }
        assert(w.resource_ids() =~= v.resource_ids().insert(id));
        assert forall|k: EntityID| #[trigger] w.bot_ids().contains(k) <==> v.bot_ids().contains(k) by {
            if k != id && w.has(k) {
                assert(w.entities[k] == v.entities[k]);
            }
        }
        assert(w.bot_ids() =~= v.bot_ids());
    }
}

} // verus!
