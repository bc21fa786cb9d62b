//! The bay: an entity table indexed by a grid of cells.
use crate::config::BAY_SIZE;
use crate::types::{Bot, Entity, EntityID, PartialEntity};
use std::collections::HashMap;
use vstd::prelude::*;

verus! {

broadcast use vstd::std_specs::hash::group_hash_axioms;

/// A square grid of `BAY_SIZE` by `BAY_SIZE` cells holding entities.
///
/// `entities` maps each id to its entity and its position; `cells[x][y]` names
/// the entity standing at `(x, y)`. The two always describe the same layout
/// (see [`Bay::wf`]).
pub struct Bay {
    pub entities: HashMap<EntityID, (Entity, u32, u32)>,
    pub cells: [[Option<EntityID>; BAY_SIZE]; BAY_SIZE],
    pub controller_id: Option<EntityID>,
}

/// What a bay holds, as mathematics: its entity table and its controller.
///
/// Under [`Bay::wf`] the cell grid is determined by the entity table.
pub struct BayView {
    pub entities: Map<EntityID, (Entity, u32, u32)>,
    pub controller_id: Option<EntityID>,
}

impl View for Bay {
    type V = BayView;

    open spec fn view(&self) -> BayView {
        BayView { entities: self.entities@, controller_id: self.controller_id }
    }
}

/// `(x, y)` lies on the grid.
pub open spec fn in_bounds(x: int, y: int) -> bool {
    0 <= x < BAY_SIZE as int && 0 <= y < BAY_SIZE as int
}

/// The resources a partial entity has received never exceed those it needs.
pub open spec fn partial_entity_bounded(p: PartialEntity) -> bool {
    &&& p.contributed_copper <= p.required_copper
    &&& p.contributed_gold <= p.required_gold
    &&& p.contributed_silicon <= p.required_silicon
    &&& p.contributed_plastic <= p.required_plastic
}

impl BayView {
    pub open spec fn has(self, id: EntityID) -> bool {
        self.entities.contains_key(id)
    }

    pub open spec fn entity(self, id: EntityID) -> Entity {
        self.entities[id].0
    }

    pub open spec fn pos_x(self, id: EntityID) -> int {
        self.entities[id].1 as int
    }

    pub open spec fn pos_y(self, id: EntityID) -> int {
        self.entities[id].2 as int
    }

    /// The entity `id` stands at `(x, y)`.
    pub open spec fn occupies(self, id: EntityID, x: int, y: int) -> bool {
        self.has(id) && self.pos_x(id) == x && self.pos_y(id) == y
    }

    /// No entity stands at `(x, y)`.
    pub open spec fn is_vacant(self, x: int, y: int) -> bool {
        forall|id: EntityID| !#[trigger] self.occupies(id, x, y)
    }

    /// The id of the entity at `(x, y)`, if any.
    pub open spec fn occupant(self, x: int, y: int) -> Option<EntityID> {
        if self.is_vacant(x, y) {
            None
        } else {
            Some(choose|id: EntityID| self.occupies(id, x, y))
        }
    }

    /// The entity at `(x, y)`, if any.
    pub open spec fn entity_at(self, x: int, y: int) -> Option<Entity> {
        match self.occupant(x, y) {
            Some(id) => Some(self.entity(id)),
            None => None,
        }
    }

    pub open spec fn is_antenna(self, id: EntityID) -> bool {
        self.has(id) && self.entity(id) is Antenna
    }

    /// `id` is a bot of this bay.
    pub open spec fn is_bot(self, id: EntityID) -> bool {
        self.has(id) && self.entity(id) is Bot
    }

    /// The bot `id`; meaningful where [`BayView::is_bot`] holds.
    pub open spec fn bot(self, id: EntityID) -> Bot {
        self.entity(id)->Bot_0
    }

    /// The ids of all bots of this bay.
    pub open spec fn bot_ids(self) -> Set<EntityID> {
        self.entities.dom().filter(|id: EntityID| self.is_bot(id))
    }

    /// The ids of all resources lying in this bay.
    pub open spec fn resource_ids(self) -> Set<EntityID> {
        self.entities.dom().filter(|id: EntityID| self.has(id) && self.entity(id) is Resource)
    }

    /// The bay has a controller exactly when it holds an antenna: then it holds
    /// one, and that antenna belongs to the controller.
    pub open spec fn controller_matches_antennas(self) -> bool {
        match self.controller_id {
            None => forall|id: EntityID| !#[trigger] self.is_antenna(id),
            Some(c) => exists|a: EntityID|
                {
                    &&& #[trigger] self.is_antenna(a)
                    &&& self.entity(a)->Antenna_0.controller_id == c
                    &&& forall|b: EntityID| #[trigger] self.is_antenna(b) ==> b == a
                },
        }
    }

    /// The layout rules of a bay, over its entity table alone.
    pub open spec fn wf(self) -> bool {
        &&& self.entities.dom().finite()
        &&& forall|id: EntityID| #[trigger] self.has(id) ==> in_bounds(self.pos_x(id), self.pos_y(id))
        &&& forall|a: EntityID, b: EntityID|
            #[trigger] self.has(a) && #[trigger] self.has(b) && self.pos_x(a) == self.pos_x(b)
                && self.pos_y(a) == self.pos_y(b) ==> a == b
        &&& forall|id: EntityID| #[trigger] self.is_bot(id) ==> {
            let b = self.bot(id);
            b.id == id && b.x == self.pos_x(id) && b.y == self.pos_y(id)
        }
        &&& forall|id: EntityID| #[trigger] self.has(id) && self.entity(id) is PartialEntity
            ==> partial_entity_bounded(self.entity(id)->PartialEntity_0)
        &&& self.controller_matches_antennas()
    }
}

impl Bay {
    /// The grid cell `(x, y)`.
    pub open spec fn cell(&self, x: int, y: int) -> Option<EntityID> {
        self.cells[x][y]
    }

    /// Every entity is found at its cell, every filled cell names an entity
    /// that stands there, and the entity table keeps the layout rules.
    pub open spec fn wf(&self) -> bool {
        &&& self@.wf()
        &&& forall|id: EntityID| #[trigger] self@.has(id) ==> self.cell(self@.pos_x(id), self@.pos_y(id)) == Some(id)
        &&& forall|x: int, y: int| #[trigger] self.cell(x, y) is Some && in_bounds(x, y)
            ==> self@.occupies(self.cell(x, y)->0, x, y)
    }

    /// Under [`Bay::wf`] a cell names the occupant of its position.
    pub proof fn lemma_cell_is_occupant(&self, x: int, y: int)
        requires
            self.wf(),
            in_bounds(x, y),
        ensures
            self.cell(x, y) == self@.occupant(x, y),
    {
        match self.cell(x, y) {
            Some(id) => {
                assert(self@.occupies(id, x, y));
                assert(!self@.is_vacant(x, y));
                let c = choose|c: EntityID| self@.occupies(c, x, y);
                assert(self@.has(c));
            },
            None => {
                assert forall|id: EntityID| !#[trigger] self@.occupies(id, x, y) by {
                    if self@.occupies(id, x, y) {
                        assert(self@.has(id));
                    }
                }
            },
        }
    }
}

impl Bay {
    /// Under [`Bay::wf`] nothing stands outside the grid.
    pub proof fn lemma_outside_is_vacant(&self, x: int, y: int)
        requires
            self.wf(),
            !in_bounds(x, y),
        ensures
            self@.is_vacant(x, y),
    {
        assert forall|id: EntityID| !#[trigger] self@.occupies(id, x, y) by {
            if self@.occupies(id, x, y) {
                assert(self@.has(id));
            }
        }
    }

    /// The entity at `(x, y)`; none outside the grid.
    pub fn get_entity_at_position(&self, x: u32, y: u32) -> (r: Option<&Entity>)
        requires
            self.wf(),
        ensures
            r matches Some(e) ==> self@.entity_at(x as int, y as int) == Some(*e),
            r is None ==> self@.entity_at(x as int, y as int) is None,
    {
        if x as usize >= BAY_SIZE || y as usize >= BAY_SIZE {
            proof {
                self.lemma_outside_is_vacant(x as int, y as int);
            }
            return None;
        }
        proof {
            self.lemma_cell_is_occupant(x as int, y as int);
        }
        match self.cells[x as usize][y as usize] {
            Some(id) => match self.entities.get(&id) {
                Some(entry) => Some(&entry.0),
                None => None,
            },
            None => None,
        }
    }

    /// The bot with id `entity_id`, if the bay holds one.
    pub fn get_bot(&self, entity_id: EntityID) -> (r: Option<&Bot>)
        ensures
            r matches Some(b) ==> self@.is_bot(entity_id) && *b == self@.bot(entity_id),
            r is None ==> !self@.is_bot(entity_id),
    {
        match self.entities.get(&entity_id) {
            Some(entry) => match &entry.0 {
                Entity::Bot(bot) => Some(bot),
                _ => None,
            },
            None => None,
        }
    }

    /// The ids of all bots of the bay, each once, in the order of their cells
    /// (by column, then by row).
    pub fn get_bot_ids(&self) -> (r: Vec<EntityID>)
        requires
            self.wf(),
        ensures
            r@.no_duplicates(),
            r@.to_set() == self@.bot_ids(),
    {
        let mut ids: Vec<EntityID> = Vec::new();
        let mut x: usize = 0;
        while x < BAY_SIZE
            invariant
                self.wf(),
                x <= BAY_SIZE,
                ids@.no_duplicates(),
                forall|k: EntityID| #[trigger] ids@.contains(k) <==> self@.is_bot(k) && self@.pos_x(k) < x,
            decreases BAY_SIZE - x,
        {
            let mut y: usize = 0;
            while y < BAY_SIZE
                invariant
                    self.wf(),
                    x < BAY_SIZE,
                    y <= BAY_SIZE,
                    ids@.no_duplicates(),
                    forall|k: EntityID| #[trigger] ids@.contains(k) <==> self@.is_bot(k) && (self@.pos_x(k) < x
                        || (self@.pos_x(k) == x && self@.pos_y(k) < y)),
                decreases BAY_SIZE - y,
            {
                if let Some(id) = self.cells[x][y] {
                    assert(self.cell(x as int, y as int) == Some(id));
                    assert(self@.occupies(id, x as int, y as int));
                    if self.entities.get(&id).unwrap().0.is_bot() {
                        let ghost before = ids@;
                        assert(!before.contains(id));
                        ids.push(id);
                        proof {
                            assert(ids@ == before.push(id));
                            assert(forall|k: EntityID| #[trigger] ids@.contains(k) <==> before.contains(k) || k == id) by {
                                assert forall|k: EntityID| ids@.contains(k) implies before.contains(k) || k == id by {
                                    let i = choose|i: int| 0 <= i < ids@.len() && ids@[i] == k;
                                    if i < before.len() {
                                        assert(before[i] == k);
                                    }
                                }
                                assert forall|k: EntityID| before.contains(k) implies ids@.contains(k) by {
                                    let i = choose|i: int| 0 <= i < before.len() && before[i] == k;
                                    assert(ids@[i] == k);
                                }
                                assert(ids@[ids@.len() - 1] == id);
                            }
                            assert forall|k: EntityID| #[trigger] ids@.contains(k) <==> self@.is_bot(k) && (
                                self@.pos_x(k) < x || (self@.pos_x(k) == x && self@.pos_y(k) < y + 1)) by {
                                if self@.is_bot(k) && self@.pos_x(k) == x && self@.pos_y(k) == y {
                                    assert(k == id);
                                }
                                if k != id {
                                    assert(before.contains(k) <==> ids@.contains(k));
                                } else {
                                    assert(ids@[ids@.len() - 1] == id);
                                }
                            }
                        }
                    } else {
                        proof {
                            assert forall|k: EntityID| #[trigger] ids@.contains(k) <==> self@.is_bot(k) && (
                                self@.pos_x(k) < x || (self@.pos_x(k) == x && self@.pos_y(k) < y + 1)) by {
                                if self@.is_bot(k) && self@.pos_x(k) == x && self@.pos_y(k) == y {
                                    assert(k == id);
                                }
                            }
                        }
                    }
                } else {
                    proof {
                        assert forall|k: EntityID| #[trigger] ids@.contains(k) <==> self@.is_bot(k) && (
                            self@.pos_x(k) < x || (self@.pos_x(k) == x && self@.pos_y(k) < y + 1)) by {
                            if self@.is_bot(k) && self@.pos_x(k) == x && self@.pos_y(k) == y {
                                assert(self@.has(k));
                            }
                        }
                    }
                }
                y = y + 1;
            }
            proof {
                assert forall|k: EntityID| #[trigger] ids@.contains(k) <==> self@.is_bot(k) && self@.pos_x(k) < x + 1 by {
                    if self@.is_bot(k) {
                        assert(self@.has(k));
                    }
                }
            }
            x = x + 1;
        }
        proof {
            assert forall|k: EntityID| #[trigger] self@.bot_ids().contains(k) <==> ids@.to_set().contains(k) by {
                if self@.is_bot(k) {
                    assert(self@.has(k));
                }
            }
            assert(ids@.to_set() =~= self@.bot_ids());
        }
        ids
    }
}

} // verus!

verus! {

/// An entity table whose entries stay where they stood (some may be gone),
/// whose bots remain the same bots, whose constructions stay bounded and
/// whose antennas and controller are kept, keeps the layout rules.
pub proof fn lemma_wf_in_place(v: BayView, w: BayView)
    requires
        v.wf(),
        forall|id: EntityID| #[trigger] w.has(id) ==> v.has(id) && w.pos_x(id) == v.pos_x(id)
            && w.pos_y(id) == v.pos_y(id),
        forall|id: EntityID| #[trigger] w.is_bot(id) ==> v.is_bot(id) && w.bot(id).id == v.bot(id).id
            && w.bot(id).x == v.bot(id).x && w.bot(id).y == v.bot(id).y,
        forall|id: EntityID| #[trigger] w.has(id) && w.entity(id) is PartialEntity
            ==> partial_entity_bounded(w.entity(id)->PartialEntity_0),
        w.controller_matches_antennas(),
    ensures
        w.wf(),
{
    assert forall|id: EntityID| #[trigger] w.entities.dom().contains(id) implies v.entities.dom().contains(id) by {
        assert(w.has(id));
    }
    vstd::set_lib::lemma_len_subset(w.entities.dom(), v.entities.dom());
    assert forall|a: EntityID, b: EntityID|
        #[trigger] w.has(a) && #[trigger] w.has(b) && w.pos_x(a) == w.pos_x(b) && w.pos_y(a) == w.pos_y(b)
        implies a == b by {
        assert(v.has(a) && v.has(b));
    }
    assert forall|id: EntityID| #[trigger] w.has(id) implies in_bounds(w.pos_x(id), w.pos_y(id)) by {
        assert(v.has(id));
    }
    assert forall|id: EntityID| #[trigger] w.is_bot(id) implies {
        let b = w.bot(id);
        b.id == id && b.x == w.pos_x(id) && b.y == w.pos_y(id)
    } by {
        assert(v.is_bot(id));
    }
}

impl Bay {
    /// A bay whose entity table keeps the layout rules, whose entries stayed in
    /// place, and whose cells were only emptied where their entity left, is
    /// well formed.
    pub proof fn lemma_cells_in_place(&self, before: &Bay)
        requires
            before.wf(),
            self@.wf(),
            forall|id: EntityID| #[trigger] self@.has(id) ==> before@.has(id) && self@.pos_x(id)
                == before@.pos_x(id) && self@.pos_y(id) == before@.pos_y(id),
            forall|x: int, y: int| in_bounds(x, y) ==> #[trigger] self.cell(x, y) == if before.cell(x, y) is Some
                && self@.has(before.cell(x, y)->0) {
                before.cell(x, y)
            } else {
                None
            },
        ensures
            self.wf(),
    {
        assert forall|id: EntityID| #[trigger] self@.has(id) implies self.cell(self@.pos_x(id), self@.pos_y(id)) == Some(id) by {
            assert(before@.has(id));
            assert(before.cell(before@.pos_x(id), before@.pos_y(id)) == Some(id));
        }
        assert forall|x: int, y: int| #[trigger] self.cell(x, y) is Some && in_bounds(x, y)
            implies self@.occupies(self.cell(x, y)->0, x, y) by {
            assert(before.cell(x, y) == self.cell(x, y));
            let id = self.cell(x, y)->0;
            assert(before@.occupies(id, x, y));
        }
    }
}

} // verus!
