//! Breadth-first search for a path from a bot to a cell next to a goal.
use crate::bay::{in_bounds, Bay, BayView};
use crate::config::BAY_SIZE;
use crate::rules::{abs, controlled_antenna_at};
use crate::codes::{direction_code, result_of_code};
use crate::protocol::{call_code, host_call, slot_after, HostCall};
use crate::types::{ActionError, Bot, BotAction, Direction, Entity, PartialEntityType};
use vstd::prelude::*;

verus! {

/// What a path search looks for.
#[derive(Clone, Copy, PartialEq, Eq, Structural, Debug)]
pub enum Goal {
    /// The cell `(x, y)`.
    Position { x: u32, y: u32 },
    /// An antenna of the searching bot's controller.
    Antenna,
    /// Any resource.
    Resource,
    /// A construction site of the given type.
    PartialEntity(PartialEntityType),
}

/// The goal is met at `(x, y)`, for the searching bot.
pub open spec fn goal_holds(goal: Goal, x: int, y: int, bot: Bot, v: BayView) -> bool {
    match goal {
        Goal::Position { x: gx, y: gy } => x == gx && y == gy,
        Goal::Antenna => controlled_antenna_at(v, bot, x, y),
        Goal::Resource => v.entity_at(x, y) matches Some(Entity::Resource(_)),
        Goal::PartialEntity(t) => v.entity_at(x, y) matches Some(Entity::PartialEntity(p)) && p.entity_type == t,
    }
}

/// Two cells share a side.
pub open spec fn touches(a: (u32, u32), b: (u32, u32)) -> bool {
    abs(a.0 - b.0) + abs(a.1 - b.1) == 1
}

/// `path` leads the bot to a goal cell: read from its end, each cell touches
/// the one before it (the last touches the bot), every cell but the first is
/// empty, and the first meets the goal.
pub open spec fn is_path_to(path: Seq<(u32, u32)>, goal: Goal, bot: Bot, v: BayView) -> bool {
    &&& path.len() >= 1
    &&& in_bounds(path[0].0 as int, path[0].1 as int)
    &&& goal_holds(goal, path[0].0 as int, path[0].1 as int, bot, v)
    &&& forall|i: int| 1 <= i < path.len() ==> in_bounds(path[i].0 as int, path[i].1 as int)
        && v.is_vacant(#[trigger] path[i].0 as int, path[i].1 as int)
    &&& forall|i: int| 1 <= i < path.len() ==> touches(path[i - 1], #[trigger] path[i])
    &&& touches(path.last(), (bot.x as u32, bot.y as u32))
}

/// Goal: the cell `(x, y)`.
#[allow(non_snake_case)]
pub fn POSITION(x: u32, y: u32) -> (g: Goal)
    ensures
        g == (Goal::Position { x, y }),
{
    Goal::Position { x, y }
}

/// Goal: a construction site of type `partial_entity_type`.
#[allow(non_snake_case)]
pub fn PARTIAL_ENTITY(partial_entity_type: PartialEntityType) -> (g: Goal)
    ensures
        g == Goal::PartialEntity(partial_entity_type),
{
    Goal::PartialEntity(partial_entity_type)
}

/// Whether an antenna of the bot's controller stands at `(x, y)`.
#[allow(non_snake_case)]
pub fn ANTENNA(x: u32, y: u32, bot: &Bot, bay: &Bay) -> (r: bool)
    requires
        bay.wf(),
    ensures
        r == goal_holds(Goal::Antenna, x as int, y as int, *bot, bay@),
{
    match bay.get_entity_at_position(x, y) {
        Some(entity) => entity.is_antenna_controlled_by(bot.controller_id),
        None => false,
    }
}

/// Whether a resource lies at `(x, y)`.
#[allow(non_snake_case)]
pub fn RESOURCE(x: u32, y: u32, bot: &Bot, bay: &Bay) -> (r: bool)
    requires
        bay.wf(),
    ensures
        r == goal_holds(Goal::Resource, x as int, y as int, *bot, bay@),
{
    match bay.get_entity_at_position(x, y) {
        Some(entity) => entity.is_resource(),
        None => false,
    }
}

impl Goal {
    /// Whether the goal is met at `(x, y)` for `bot`.
    pub fn holds_at(&self, x: u32, y: u32, bot: &Bot, bay: &Bay) -> (r: bool)
        requires
            bay.wf(),
        ensures
            r == goal_holds(*self, x as int, y as int, *bot, bay@),
    {
        match self {
            Goal::Position { x: gx, y: gy } => x == *gx && y == *gy,
            Goal::Antenna => ANTENNA(x, y, bot, bay),
            Goal::Resource => RESOURCE(x, y, bot, bay),
            Goal::PartialEntity(t) => match bay.get_entity_at_position(x, y) {
                Some(entity) => entity.is_partial_entity_of_type(*t),
                None => false,
            },
        }
    }
}

/// The cells that share a side with `(x, y)`, in the order up, down, left,
/// right; `None` for those off the grid.
pub fn neighbors(x: u32, y: u32) -> (r: [Option<(u32, u32)>; 4])
    requires
        in_bounds(x as int, y as int),
    ensures
        forall|i: int| 0 <= i < 4 ==> (#[trigger] r[i] matches Some(c) ==> in_bounds(c.0 as int, c.1 as int)
            && touches((x, y), c)),
        r[0] == (if y != 0 { Some((x, (y - 1) as u32)) } else { None::<(u32, u32)> }),
        r[1] == (if y + 1 < BAY_SIZE { Some((x, (y + 1) as u32)) } else { None::<(u32, u32)> }),
        r[2] == (if x != 0 { Some(((x - 1) as u32, y)) } else { None::<(u32, u32)> }),
        r[3] == (if x + 1 < BAY_SIZE { Some(((x + 1) as u32, y)) } else { None::<(u32, u32)> }),
{
    let up = if y != 0 { Some((x, y - 1)) } else { None };
    let down = if (y as usize) < BAY_SIZE - 1 { Some((x, y + 1)) } else { None };
    let left = if x != 0 { Some((x - 1, y)) } else { None };
    let right = if (x as usize) < BAY_SIZE - 1 { Some((x + 1, y)) } else { None };
    [up, down, left, right]
}

/// The `i`-th neighbour of `(x, y)`, in the order up, down, left, right;
/// `None` when it is off the grid.
pub open spec fn neighbor_cell(x: u32, y: u32, i: int) -> Option<(u32, u32)> {
    if i == 0 {
        if y != 0 { Some((x, (y - 1) as u32)) } else { None }
    } else if i == 1 {
        if y + 1 < BAY_SIZE { Some((x, (y + 1) as u32)) } else { None }
    } else if i == 2 {
        if x != 0 { Some(((x - 1) as u32, y)) } else { None }
    } else {
        if x + 1 < BAY_SIZE { Some(((x + 1) as u32, y)) } else { None }
    }
}

/// Every cell of the grid that touches `(x, y)` is one of its four neighbours.
pub proof fn lemma_touching_is_neighbor(x: u32, y: u32, c: (u32, u32))
    requires
        in_bounds(c.0 as int, c.1 as int),
        touches((x, y), c),
    ensures
        exists|i: int| 0 <= i < 4 && #[trigger] neighbor_cell(x, y, i) == Some(c),
{
    if c.1 + 1 == y {
        assert(neighbor_cell(x, y, 0) == Some(c));
    } else if c.1 == y + 1 {
        assert(neighbor_cell(x, y, 1) == Some(c));
    } else if c.0 + 1 == x {
        assert(neighbor_cell(x, y, 2) == Some(c));
    } else {
        assert(neighbor_cell(x, y, 3) == Some(c));
    }
}

/// The neighbours of `(x, y)` whose cells are empty; `None` for the others.
pub fn empty_neighbors(position: (u32, u32), bay: &Bay) -> (r: [Option<(u32, u32)>; 4])
    requires
        bay.wf(),
        in_bounds(position.0 as int, position.1 as int),
    ensures
        forall|i: int| 0 <= i < 4 ==> (#[trigger] r[i] matches Some(c) ==> in_bounds(c.0 as int, c.1 as int)
            && touches(position, c) && bay@.is_vacant(c.0 as int, c.1 as int)),
        forall|i: int| 0 <= i < 4 ==> #[trigger] r[i] == match neighbor_cell(position.0, position.1, i) {
            Some(c) => if bay@.is_vacant(c.0 as int, c.1 as int) { Some(c) } else { None },
            None => None,
        },
{
    let all = neighbors(position.0, position.1);
    assert(forall|j: int| 0 <= j < 4 ==> #[trigger] all[j] == neighbor_cell(position.0, position.1, j));
    let mut r: [Option<(u32, u32)>; 4] = [None, None, None, None];
    let mut i: usize = 0;
    while i < 4
        invariant
            bay.wf(),
            i <= 4,
            forall|j: int| 0 <= j < 4 ==> (#[trigger] all[j] matches Some(c) ==> in_bounds(c.0 as int, c.1 as int)
                && touches(position, c)),
            forall|j: int| 0 <= j < 4 ==> (#[trigger] r[j] matches Some(c) ==> in_bounds(c.0 as int, c.1 as int)
                && touches(position, c) && bay@.is_vacant(c.0 as int, c.1 as int)),
            forall|j: int| 0 <= j < 4 ==> #[trigger] all[j] == neighbor_cell(position.0, position.1, j),
            forall|j: int| 0 <= j < i ==> #[trigger] r[j] == match neighbor_cell(position.0, position.1, j) {
                Some(c) => if bay@.is_vacant(c.0 as int, c.1 as int) { Some(c) } else { None },
                None => None,
            },
            forall|j: int| i <= j < 4 ==> #[trigger] r[j] is None,
        decreases 4 - i,
    {
        if let Some((cx, cy)) = all[i] {
            assert(all[i as int] matches Some(c) && c == (cx, cy));
            proof {
                bay.lemma_cell_is_occupant(cx as int, cy as int);
            }
            if bay.cells[cx as usize][cy as usize].is_none() {
                r[i] = Some((cx, cy));
            }
        } else {
            assert(neighbor_cell(position.0, position.1, i as int) is None);
        }
        i = i + 1;
    }
    r
}

} // verus!

verus! {

/// The search's record of where it reached each cell from.
pub type CameFrom = [[Option<(u32, u32)>; BAY_SIZE]; BAY_SIZE];

pub open spec fn reached(cf: CameFrom, c: (u32, u32)) -> bool {
    cf[c.0 as int][c.1 as int] is Some
}

/// The number of cells, among the first `k` in row order, not reached yet.
pub open spec fn unreached_count(cf: CameFrom, k: nat) -> nat
    decreases k,
{
    if k == 0 {
        0
    } else {
        let i = k - 1;
        unreached_count(cf, (k - 1) as nat) + if cf[i / BAY_SIZE as int][i % BAY_SIZE as int] is None {
            1nat
        } else {
            0nat
        }
    }
}

proof fn lemma_unreached_count_mark(cf: CameFrom, cg: CameFrom, x: int, y: int, k: nat)
    requires
        in_bounds(x, y),
        cf[x][y] is None,
        cg[x][y] is Some,
        forall|a: int, b: int| in_bounds(a, b) && !(a == x && b == y) ==> #[trigger] cg[a][b] == cf[a][b],
        k <= BAY_SIZE * BAY_SIZE,
    ensures
        unreached_count(cg, k) + (if x * BAY_SIZE + y < k { 1int } else { 0int }) == unreached_count(cf, k),
    decreases k,
{
    if k > 0 {
        let i = k - 1;
        lemma_unreached_count_mark(cf, cg, x, y, (k - 1) as nat);
        assert(in_bounds(i / BAY_SIZE as int, i % BAY_SIZE as int));
        if i == x * BAY_SIZE + y {
            assert(i / BAY_SIZE as int == x && i % BAY_SIZE as int == y);
        } else {
            assert(!(i / BAY_SIZE as int == x && i % BAY_SIZE as int == y));
        }
    }
}

/// The frontier's cells from `head` on have not been searched from yet; the
/// ones before have: their empty neighbours are reached and none meets the
/// goal.
#[verifier::opaque]
pub open spec fn searched_from(c: (u32, u32), cf: CameFrom, goal: Goal, bot: Bot, v: BayView) -> bool {
    forall|n: (u32, u32)| in_bounds(n.0 as int, n.1 as int) && #[trigger] touches(c, n) ==> (v.is_vacant(
        n.0 as int,
        n.1 as int,
    ) ==> reached(cf, n)) && !goal_holds(goal, n.0 as int, n.1 as int, bot, v)
}

/// Every reached cell but the start is empty and was reached from a
/// touching, earlier reached cell.
#[verifier::opaque]
pub open spec fn parents_lead_back(cf: CameFrom, dist: [[usize; BAY_SIZE]; BAY_SIZE], start: (u32, u32), v: BayView) -> bool {
    forall|a: int, b: int| #![trigger cf[a][b]] in_bounds(a, b) && cf[a][b] is Some && !(a == start.0 && b == start.1) ==> {
        let p = cf[a][b]->0;
        &&& in_bounds(p.0 as int, p.1 as int)
        &&& reached(cf, p)
        &&& touches(p, (a as u32, b as u32))
        &&& dist[p.0 as int][p.1 as int] < dist[a][b]
        &&& v.is_vacant(a, b)
    }
}

pub type Distances = [[usize; BAY_SIZE]; BAY_SIZE];

/// The frontier's cells lie on the grid, are reached, and each lies no
/// farther from the start than its place in the frontier.
#[verifier::opaque]
pub open spec fn frontier_ok(cf: CameFrom, dist: Distances, frontier: Seq<(u32, u32)>) -> bool {
    forall|i: int| 0 <= i < frontier.len() ==> in_bounds(#[trigger] frontier[i].0 as int, frontier[i].1 as int)
        && reached(cf, frontier[i]) && dist[frontier[i].0 as int][frontier[i].1 as int] <= i
}

/// Every reached cell is in the frontier.
#[verifier::opaque]
pub open spec fn reached_listed(cf: CameFrom, frontier: Seq<(u32, u32)>) -> bool {
    forall|a: int, b: int| #![trigger cf[a][b]] in_bounds(a, b) && cf[a][b] is Some ==> exists|i: int|
        0 <= i < frontier.len() && #[trigger] frontier[i] == (a as u32, b as u32)
}

/// Reaches each listed empty neighbour of the frontier cell at `head` that was
/// not reached yet, appending it to the frontier.
fn reach_open_neighbors(
    came_from: &mut CameFrom,
    dist: &mut Distances,
    frontier: &mut Vec<(u32, u32)>,
    head: usize,
    open: [Option<(u32, u32)>; 4],
    start: (u32, u32),
    goal: Goal,
    bot: &Bot,
    bay: &Bay,
)
    requires
        bay.wf(),
        in_bounds(start.0 as int, start.1 as int),
        head < old(frontier).len(),
        old(frontier)@[0] == start,
        old(came_from)[start.0 as int][start.1 as int] == Some(start),
        frontier_ok(*old(came_from), *old(dist), old(frontier)@),
        reached_listed(*old(came_from), old(frontier)@),
        parents_lead_back(*old(came_from), *old(dist), start, bay@),
        forall|i: int| 0 <= i < head ==> searched_from(#[trigger] old(frontier)@[i], *old(came_from), goal, *bot, bay@),
        forall|jj: int| 0 <= jj < 4 ==> (#[trigger] open[jj] matches Some(c) ==> in_bounds(c.0 as int, c.1 as int)
            && touches(old(frontier)@[head as int], c) && bay@.is_vacant(c.0 as int, c.1 as int)),
    ensures
        head < final(frontier).len(),
        final(frontier)@[0] == start,
        final(frontier)@[head as int] == old(frontier)@[head as int],
        final(came_from)[start.0 as int][start.1 as int] == Some(start),
        frontier_ok(*final(came_from), *final(dist), final(frontier)@),
        reached_listed(*final(came_from), final(frontier)@),
        parents_lead_back(*final(came_from), *final(dist), start, bay@),
        forall|i: int| 0 <= i < head ==> searched_from(#[trigger] final(frontier)@[i], *final(came_from), goal, *bot, bay@),
        forall|jj: int| 0 <= jj < 4 ==> (#[trigger] open[jj] matches Some(c) ==> reached(*final(came_from), c)),
        unreached_count(*final(came_from), (BAY_SIZE * BAY_SIZE) as nat) + final(frontier).len()
            == unreached_count(*old(came_from), (BAY_SIZE * BAY_SIZE) as nat) + old(frontier).len(),
{
    let visiting = frontier[head];
    proof {
        reveal(frontier_ok);
        assert(in_bounds(frontier@[head as int].0 as int, frontier@[head as int].1 as int));
    }
    let d = dist[visiting.0 as usize][visiting.1 as usize];
    let mut j: usize = 0;
    while j < 4
        invariant
            bay.wf(),
            in_bounds(start.0 as int, start.1 as int),
            head < frontier.len(),
            frontier@[head as int] == visiting,
            frontier@[0] == start,
            frontier@.len() >= old(frontier)@.len(),
            forall|i: int| 0 <= i < old(frontier)@.len() ==> #[trigger] frontier@[i] == old(frontier)@[i],
            in_bounds(visiting.0 as int, visiting.1 as int),
            reached(*came_from, visiting),
            dist[visiting.0 as int][visiting.1 as int] == d,
            d <= head,
            came_from[start.0 as int][start.1 as int] == Some(start),
            frontier_ok(*came_from, *dist, frontier@),
            reached_listed(*came_from, frontier@),
            parents_lead_back(*came_from, *dist, start, bay@),
            forall|i: int| 0 <= i < head ==> searched_from(#[trigger] frontier@[i], *came_from, goal, *bot, bay@),
            unreached_count(*came_from, (BAY_SIZE * BAY_SIZE) as nat) + frontier.len()
                == unreached_count(*old(came_from), (BAY_SIZE * BAY_SIZE) as nat) + old(frontier).len(),
            j <= 4,
            forall|jj: int| 0 <= jj < 4 ==> (#[trigger] open[jj] matches Some(c) ==> in_bounds(c.0 as int, c.1 as int)
                && touches(visiting, c) && bay@.is_vacant(c.0 as int, c.1 as int)),
            forall|jj: int| 0 <= jj < j ==> (#[trigger] open[jj] matches Some(c) ==> reached(*came_from, c)),
        decreases 4 - j,
    {
        if let Some(c) = open[j] {
            assert(open[j as int] == Some(c));
            if came_from[c.0 as usize][c.1 as usize].is_none() {
                proof {
                    reveal(frontier_ok);
                    assert(frontier@[head as int] == visiting);
                }
                let ghost before = *came_from;
                let ghost before_dist = *dist;
                let ghost before_frontier = frontier@;
                came_from[c.0 as usize][c.1 as usize] = Some(visiting);
                dist[c.0 as usize][c.1 as usize] = d + 1;
                frontier.push(c);
                proof {
                    lemma_reach_cell(before, *came_from, before_dist, *dist, before_frontier, frontier@, c, visiting, start, head as int, goal, *bot, bay@);
                    assert forall|jj: int| 0 <= jj < j + 1 implies (#[trigger] open[jj] matches Some(e) ==> reached(*came_from, e)) by {
                        if jj < j {
                            if let Some(e) = open[jj] {
                                assert(reached(before, e));
                                if !(e.0 == c.0 && e.1 == c.1) {
                                    assert(came_from[e.0 as int][e.1 as int] == before[e.0 as int][e.1 as int]);
                                }
                            }
                        }
                    }
                }
            }
        }
        j = j + 1;
    }
}

/// Reaching one more cell `c` from `visiting` keeps the search's records.
proof fn lemma_reach_cell(
    cf: CameFrom,
    cg: CameFrom,
    dist: Distances,
    dist2: Distances,
    frontier: Seq<(u32, u32)>,
    frontier2: Seq<(u32, u32)>,
    c: (u32, u32),
    visiting: (u32, u32),
    start: (u32, u32),
    head: int,
    goal: Goal,
    bot: Bot,
    v: BayView,
)
    requires
        in_bounds(c.0 as int, c.1 as int),
        in_bounds(start.0 as int, start.1 as int),
        in_bounds(visiting.0 as int, visiting.1 as int),
        v.is_vacant(c.0 as int, c.1 as int),
        touches(visiting, c),
        cf[c.0 as int][c.1 as int] is None,
        cg[c.0 as int][c.1 as int] == Some(visiting),
        forall|a: int, b: int| in_bounds(a, b) && !(a == c.0 && b == c.1) ==> #[trigger] cg[a][b] == cf[a][b],
        dist2[c.0 as int][c.1 as int] == dist[visiting.0 as int][visiting.1 as int] + 1,
        forall|a: int, b: int| in_bounds(a, b) && !(a == c.0 && b == c.1) ==> #[trigger] dist2[a][b] == dist[a][b],
        frontier2 == frontier.push(c),
        0 <= head < frontier.len(),
        frontier[head] == visiting,
        dist[visiting.0 as int][visiting.1 as int] <= head,
        reached(cf, visiting),
        cf[start.0 as int][start.1 as int] == Some(start),
        frontier_ok(cf, dist, frontier),
        reached_listed(cf, frontier),
        parents_lead_back(cf, dist, start, v),
        forall|i: int| 0 <= i < head ==> searched_from(#[trigger] frontier[i], cf, goal, bot, v),
    ensures
        frontier_ok(cg, dist2, frontier2),
        reached_listed(cg, frontier2),
        parents_lead_back(cg, dist2, start, v),
        forall|i: int| 0 <= i < head ==> searched_from(#[trigger] frontier2[i], cg, goal, bot, v),
        unreached_count(cg, (BAY_SIZE * BAY_SIZE) as nat) + 1 == unreached_count(cf, (BAY_SIZE * BAY_SIZE) as nat),
        cg[start.0 as int][start.1 as int] == Some(start),
{
    reveal(frontier_ok);
    reveal(reached_listed);
    reveal(parents_lead_back);
    reveal(searched_from);
    lemma_unreached_count_mark(cf, cg, c.0 as int, c.1 as int, (BAY_SIZE * BAY_SIZE) as nat);
    assert(c.0 * BAY_SIZE + c.1 < BAY_SIZE * BAY_SIZE);
    assert(c != start);
    assert(forall|i: int| 0 <= i < frontier.len() ==> #[trigger] frontier2[i] == frontier[i]);
    assert forall|i: int| 0 <= i < frontier2.len() implies in_bounds(#[trigger] frontier2[i].0 as int, frontier2[i].1 as int)
        && reached(cg, frontier2[i]) && dist2[frontier2[i].0 as int][frontier2[i].1 as int] <= i by {
        if i < frontier.len() {
            let f = frontier[i];
            assert(in_bounds(f.0 as int, f.1 as int) && reached(cf, f));
            assert(!(f.0 == c.0 && f.1 == c.1));
        }
    }
    assert forall|a: int, b: int| #![trigger cg[a][b]] in_bounds(a, b) && cg[a][b] is Some implies exists|i: int|
        0 <= i < frontier2.len() && #[trigger] frontier2[i] == (a as u32, b as u32) by {
        if a == c.0 && b == c.1 {
            assert(frontier2[frontier.len() as int] == (a as u32, b as u32));
        } else {
            assert(cf[a][b] is Some);
            let i = choose|i: int| 0 <= i < frontier.len() && #[trigger] frontier[i] == (a as u32, b as u32);
            assert(frontier2[i] == (a as u32, b as u32));
        }
    }
    assert forall|a: int, b: int| #![trigger cg[a][b]] in_bounds(a, b) && cg[a][b] is Some && !(a == start.0 && b == start.1) implies {
        let p = cg[a][b]->0;
        &&& in_bounds(p.0 as int, p.1 as int)
        &&& reached(cg, p)
        &&& touches(p, (a as u32, b as u32))
        &&& dist2[p.0 as int][p.1 as int] < dist2[a][b]
        &&& v.is_vacant(a, b)
    } by {
        if !(a == c.0 && b == c.1) {
            assert(cf[a][b] is Some);
            let p = cf[a][b]->0;
            assert(reached(cf, p));
            assert(!(p.0 == c.0 && p.1 == c.1));
        } else {
            assert(!(visiting.0 == c.0 && visiting.1 == c.1));
        }
    }
    assert forall|i: int| 0 <= i < head implies searched_from(#[trigger] frontier2[i], cg, goal, bot, v) by {
        assert(searched_from(frontier[i], cf, goal, bot, v));
        assert forall|n: (u32, u32)| in_bounds(n.0 as int, n.1 as int) && #[trigger] touches(frontier2[i], n) && reached(cf, n)
            implies reached(cg, n) by {
            if !(n.0 == c.0 && n.1 == c.1) {
                assert(cg[n.0 as int][n.1 as int] == cf[n.0 as int][n.1 as int]);
            }
        }
    }
}

/// The path from the goal cell `g`, met next to `at`, back to the start.
fn trace_back(came_from: &CameFrom, dist: &Distances, at: (u32, u32), g: (u32, u32), start: (u32, u32), goal: Goal, bot: &Bot, bay: &Bay) -> (path: Vec<(u32, u32)>)
    requires
        bay.wf(),
        start == (bot.x as u32, bot.y as u32),
        parents_lead_back(*came_from, *dist, start, bay@),
        in_bounds(at.0 as int, at.1 as int),
        reached(*came_from, at),
        in_bounds(g.0 as int, g.1 as int),
        touches(at, g),
        goal_holds(goal, g.0 as int, g.1 as int, *bot, bay@),
    ensures
        is_path_to(path@, goal, *bot, bay@),
{
    reveal(parents_lead_back);
    let mut path: Vec<(u32, u32)> = Vec::new();
    path.push(g);
    let mut prev = at;
    while !(prev.0 == start.0 && prev.1 == start.1)
        invariant
            bay.wf(),
            start == (bot.x as u32, bot.y as u32),
            parents_lead_back(*came_from, *dist, start, bay@),
            in_bounds(prev.0 as int, prev.1 as int),
            reached(*came_from, prev),
            path@.len() >= 1,
            path@[0] == g,
            in_bounds(g.0 as int, g.1 as int),
            goal_holds(goal, g.0 as int, g.1 as int, *bot, bay@),
            forall|i: int| 1 <= i < path@.len() ==> in_bounds(path@[i].0 as int, path@[i].1 as int)
                && bay@.is_vacant(#[trigger] path@[i].0 as int, path@[i].1 as int),
            forall|i: int| 1 <= i < path@.len() ==> touches(path@[i - 1], #[trigger] path@[i]),
            touches(path@.last(), prev),
        decreases dist[prev.0 as int][prev.1 as int],
    {
        let ghost before = path@;
        proof {
            reveal(parents_lead_back);
        }
        assert(came_from[prev.0 as int][prev.1 as int] is Some);
        path.push(prev);
        proof {
            assert(forall|i: int| 0 <= i < before.len() ==> #[trigger] path@[i] == before[i]);
        }
        prev = came_from[prev.0 as usize][prev.1 as usize].unwrap();
    }
    path
}

impl Bot {
    /// A path over empty cells to a cell where `goal` is met, found by a
    /// breadth-first search from the bot. The path lists the goal cell first
    /// and the bot's first step last; `None` when no such path exists.
    pub fn find_path_to(&self, goal: Goal, bay: &Bay) -> (r: Option<Vec<(u32, u32)>>)
        requires
            bay.wf(),
            in_bounds(self.x as int, self.y as int),
        ensures
            r matches Some(path) ==> is_path_to(path@, goal, *self, bay@),
            r is None ==> forall|path: Seq<(u32, u32)>| !is_path_to(path, goal, *self, bay@),
    {
        let start: (u32, u32) = (self.x as u32, self.y as u32);
        let mut came_from: CameFrom = [[None; BAY_SIZE]; BAY_SIZE];
        let mut dist: Distances = [[0; BAY_SIZE]; BAY_SIZE];
        let ghost before_start = came_from;
        came_from[start.0 as usize][start.1 as usize] = Some(start);
        proof {
            lemma_unreached_count_mark(before_start, came_from, start.0 as int, start.1 as int, (BAY_SIZE * BAY_SIZE) as nat);
        }
        let mut frontier: Vec<(u32, u32)> = Vec::new();
        frontier.push(start);
        proof {
            reveal(reached_listed);
            reveal(frontier_ok);
            reveal(parents_lead_back);
            assert forall|a: int, b: int| #![trigger came_from[a][b]] in_bounds(a, b) && came_from[a][b] is Some implies exists|i: int|
                0 <= i < frontier@.len() && #[trigger] frontier@[i] == (a as u32, b as u32) by {
                if !(a == start.0 && b == start.1) {
                    assert(came_from[a][b] == before_start[a][b]);
                }
                assert(frontier@[0] == (a as u32, b as u32));
            }
            assert forall|a: int, b: int| #![trigger came_from[a][b]] in_bounds(a, b) && came_from[a][b] is Some && !(a == start.0 && b == start.1) implies false by {
                assert(came_from[a][b] == before_start[a][b]);
            }
        }
        let mut head: usize = 0;
        let mut found: Option<((u32, u32), (u32, u32))> = None;
        while head < frontier.len() && found.is_none()
            invariant
                bay.wf(),
                in_bounds(start.0 as int, start.1 as int),
                start == (self.x as u32, self.y as u32),
                head <= frontier.len(),
                frontier@[0] == start,
                came_from[start.0 as int][start.1 as int] == Some(start),
                frontier_ok(came_from, dist, frontier@),
                reached_listed(came_from, frontier@),
                parents_lead_back(came_from, dist, start, bay@),
                found is None ==> forall|i: int| 0 <= i < head ==> searched_from(#[trigger] frontier@[i], came_from, goal, *self, bay@),
                found matches Some((at, g)) ==> in_bounds(at.0 as int, at.1 as int) && reached(came_from, at)
                    && in_bounds(g.0 as int, g.1 as int) && touches(at, g) && goal_holds(goal, g.0 as int, g.1 as int, *self, bay@),
            decreases unreached_count(came_from, (BAY_SIZE * BAY_SIZE) as nat) + frontier.len() - head,
        {
            let visiting = frontier[head];
            proof {
                reveal(frontier_ok);
                assert(in_bounds(frontier@[head as int].0 as int, frontier@[head as int].1 as int));
                assert(reached(came_from, frontier@[head as int]));
            }
            let candidates = neighbors(visiting.0, visiting.1);
            let mut k: usize = 0;
            let mut hit: Option<(u32, u32)> = None;
            while k < 4 && hit.is_none()
                invariant
                    bay.wf(),
                    k <= 4,
                    forall|j: int| 0 <= j < 4 ==> #[trigger] candidates[j] == neighbor_cell(visiting.0, visiting.1, j),
                    hit is None ==> forall|j: int| 0 <= j < k ==> (#[trigger] candidates[j] matches Some(c) ==> !goal_holds(goal, c.0 as int, c.1 as int, *self, bay@)),
                    hit matches Some(g) ==> in_bounds(g.0 as int, g.1 as int) && touches(visiting, g) && goal_holds(goal, g.0 as int, g.1 as int, *self, bay@),
                    in_bounds(visiting.0 as int, visiting.1 as int),
                decreases 4 - k,
            {
                if let Some(c) = candidates[k] {
                    assert(candidates[k as int] == Some(c));
                    if goal.holds_at(c.0, c.1, self, bay) {
                        hit = Some(c);
                    }
                }
                k = k + 1;
            }
            if let Some(g) = hit {
                found = Some((visiting, g));
            } else {
                let open = empty_neighbors(visiting, bay);
                reach_open_neighbors(&mut came_from, &mut dist, &mut frontier, head, open, start, goal, self, bay);
                proof {
                    reveal(searched_from);
                    assert forall|n: (u32, u32)| in_bounds(n.0 as int, n.1 as int) && #[trigger] touches(visiting, n) implies (bay@.is_vacant(
                        n.0 as int,
                        n.1 as int,
                    ) ==> reached(came_from, n)) && !goal_holds(goal, n.0 as int, n.1 as int, *self, bay@) by {
                        lemma_touching_is_neighbor(visiting.0, visiting.1, n);
                        let i = choose|i: int| 0 <= i < 4 && #[trigger] neighbor_cell(visiting.0, visiting.1, i) == Some(n);
                        assert(candidates[i] == Some(n));
                        if bay@.is_vacant(n.0 as int, n.1 as int) {
                            assert(open[i] == Some(n));
                        }
                    }
                    assert(searched_from(frontier@[head as int], came_from, goal, *self, bay@));
                }
            }
            head = head + 1;
        }
        match found {
            Some((at, g)) => Some(trace_back(&came_from, &dist, at, g, start, goal, self, bay)),
            None => {
                proof {
                    lemma_exhausted_search_finds_no_path(came_from, frontier@, start, goal, *self, bay@);
                }
                None
            },
        }
    }
}

/// A search that has searched from every cell it reached, without meeting
/// the goal, leaves no path to it.
proof fn lemma_exhausted_search_finds_no_path(cf: CameFrom, frontier: Seq<(u32, u32)>, start: (u32, u32), goal: Goal, bot: Bot, v: BayView)
    requires
        start == (bot.x as u32, bot.y as u32),
        in_bounds(start.0 as int, start.1 as int),
        cf[start.0 as int][start.1 as int] == Some(start),
        reached_listed(cf, frontier),
        forall|i: int| 0 <= i < frontier.len() ==> searched_from(#[trigger] frontier[i], cf, goal, bot, v),
    ensures
        forall|path: Seq<(u32, u32)>| !is_path_to(path, goal, bot, v),
{
    reveal(reached_listed);
    assert forall|c: (u32, u32)| in_bounds(c.0 as int, c.1 as int) && #[trigger] reached(cf, c)
        implies searched_from(c, cf, goal, bot, v) by {
        assert(cf[c.0 as int][c.1 as int] is Some);
        let i = choose|i: int| 0 <= i < frontier.len() && #[trigger] frontier[i] == (c.0 as u32, c.1 as u32);
    }
    assert forall|path: Seq<(u32, u32)>| !is_path_to(path, goal, bot, v) by {
        reveal(searched_from);
        if is_path_to(path, goal, bot, v) {
            if path.len() == 1 {
                lemma_path_cells_reached(path, goal, bot, v, cf, start, 0);
                assert(touches(start, path[0]));
                assert(reached(cf, start));
            } else {
                lemma_path_cells_reached(path, goal, bot, v, cf, start, 1);
                assert(reached(cf, path[1]));
                assert(in_bounds(path[1].0 as int, path[1].1 as int));
                assert(touches(path[1], path[0]));
                assert(searched_from(path[1], cf, goal, bot, v));
            }
        }
    }
}

proof fn lemma_unreached_count_monotone(cf: CameFrom, a: nat, b: nat)
    requires
        a <= b,
    ensures
        unreached_count(cf, a) <= unreached_count(cf, b),
    decreases b,
{
    if a < b {
        lemma_unreached_count_monotone(cf, a, (b - 1) as nat);
    }
}

/// Once every reached cell has been searched from, every cell of a path to
/// the goal from `idx` to its end was reached.
proof fn lemma_path_cells_reached(path: Seq<(u32, u32)>, goal: Goal, bot: Bot, v: BayView, cf: CameFrom, start: (u32, u32), idx: int)
    requires
        is_path_to(path, goal, bot, v),
        start == (bot.x as u32, bot.y as u32),
        in_bounds(start.0 as int, start.1 as int),
        reached(cf, start),
        forall|c: (u32, u32)| in_bounds(c.0 as int, c.1 as int) && #[trigger] reached(cf, c) ==> searched_from(c, cf, goal, bot, v),
        1 <= idx < path.len() || idx == path.len() - 1,
    ensures
        path.len() >= 2 ==> forall|i: int| idx <= i < path.len() && i >= 1 ==> #[trigger] reached(cf, path[i]),
    decreases path.len() - idx,
{
    reveal(searched_from);
    if path.len() >= 2 && idx >= 1 {
        if idx == path.len() - 1 {
            assert(touches(start, path[idx]));
            assert(searched_from(start, cf, goal, bot, v));
            assert(in_bounds(path[idx].0 as int, path[idx].1 as int) && v.is_vacant(path[idx].0 as int, path[idx].1 as int));
        } else {
            lemma_path_cells_reached(path, goal, bot, v, cf, start, idx + 1);
            assert(reached(cf, path[idx + 1]));
            assert(touches(path[idx], path[idx + 1]));
            assert(touches(path[idx + 1], path[idx]));
            assert(searched_from(path[idx + 1], cf, goal, bot, v));
            assert(in_bounds(path[idx].0 as int, path[idx].1 as int) && v.is_vacant(path[idx].0 as int, path[idx].1 as int));
        }
    }
}

} // verus!

verus! {

/// The direction in which `(x, y)` touches the bot's cell, if it does.
pub open spec fn direction_towards(bot: Bot, x: u32, y: u32) -> Option<Direction> {
    if x as int == bot.x + 1 && y as int == bot.y {
        Some(Direction::Right)
    } else if x as int + 1 == bot.x && y as int == bot.y {
        Some(Direction::Left)
    } else if x as int == bot.x && y as int + 1 == bot.y {
        Some(Direction::Up)
    } else if x as int == bot.x && y as int == bot.y + 1 {
        Some(Direction::Down)
    } else {
        None
    }
}

impl Bot {
    /// Asks, through the move import, to step onto the last cell of `path`,
    /// and drops that cell from the path once the move is accepted. A path
    /// whose last cell does not touch the bot is refused as impossible.
    pub fn move_along_path(&self, path: &mut Vec<(u32, u32)>, bot_action: &mut Option<BotAction>, bay: &Bay) -> (r: Result<(), ActionError>)
        requires
            bay.wf(),
        ensures
            match (if old(path)@.len() == 0 { None } else { direction_towards(*self, old(path)@.last().0, old(path)@.last().1) }) {
                Some(d) => {
                    let call = HostCall::MoveTowards { direction: direction_code(d) };
                    &&& result_of_code(call_code(*old(bot_action), bay@, self.id, call)) == Ok::<Result<(), ActionError>, ()>(r)
                    &&& *final(bot_action) == slot_after(*old(bot_action), bay@, self.id, call)
                    &&& final(path)@ == if r is Ok { old(path)@.drop_last() } else { old(path)@ }
                },
                None => {
                    &&& r == Err::<(), ActionError>(ActionError::ActionNotPossible)
                    &&& *final(bot_action) == *old(bot_action)
                    &&& final(path)@ == old(path)@
                },
            },
    {
        if path.len() == 0 {
            return Err(ActionError::ActionNotPossible);
        }
        let (x, y) = path[path.len() - 1];
        let (x, y) = (x as usize, y as usize);
        let direction = if x > self.x && x - self.x == 1 && y == self.y {
            Direction::Right
        } else if self.x > x && self.x - x == 1 && y == self.y {
            Direction::Left
        } else if x == self.x && self.y > y && self.y - y == 1 {
            Direction::Up
        } else if x == self.x && y > self.y && y - self.y == 1 {
            Direction::Down
        } else {
            return Err(ActionError::ActionNotPossible);
        };
        let call = HostCall::MoveTowards { direction: direction.rust_to_wasm() };
        let code = host_call(bot_action, self.id, bay, call);
        let result = match ActionError::wasm_to_rust(code) {
            Ok(result) => result,
            Err(()) => {
                proof {
                    assert(code <= 3);
                }
                return Err(ActionError::ActionNotPossible);
            },
        };
        if result.is_ok() {
            path.pop();
        }
        result
    }
}

} // verus!
