//! The rules of the world as mathematics: when each action is allowed, and
//! what committing it does to a bay's entity table.
use crate::bay::{in_bounds, BayView};
use crate::config::{
    BUILD_ENTITY_ENERGY, DEPOSIT_RESOURCE_ENERGY, HARVEST_RESOURCE_ENERGY, MOVE_TOWARDS_ENERGY,
    WITHDRAW_RESOURCE_ENERGY,
};
use crate::types::{
    ActionError, Antenna, Bot, BotAction, Direction, Entity, EntityID, PartialEntity,
    PartialEntityType, Resource,
};
use vstd::prelude::*;

verus! {

/// How many units of `r` the antenna stores.
pub open spec fn stored(a: Antenna, r: Resource) -> u8 {
    match r {
        Resource::Copper => a.stored_copper,
        Resource::Gold => a.stored_gold,
        Resource::Silicon => a.stored_silicon,
        Resource::Plastic => a.stored_plastic,
    }
}

/// The antenna with its count of `r` replaced by `n`.
pub open spec fn with_stored(a: Antenna, r: Resource, n: u8) -> Antenna {
    match r {
        Resource::Copper => Antenna { stored_copper: n, ..a },
        Resource::Gold => Antenna { stored_gold: n, ..a },
        Resource::Silicon => Antenna { stored_silicon: n, ..a },
        Resource::Plastic => Antenna { stored_plastic: n, ..a },
    }
}

/// How many units of `r` the construction has received.
pub open spec fn contributed(p: PartialEntity, r: Resource) -> u8 {
    match r {
        Resource::Copper => p.contributed_copper,
        Resource::Gold => p.contributed_gold,
        Resource::Silicon => p.contributed_silicon,
        Resource::Plastic => p.contributed_plastic,
    }
}

/// How many units of `r` the construction needs in all.
pub open spec fn required(p: PartialEntity, r: Resource) -> u8 {
    match r {
        Resource::Copper => p.required_copper,
        Resource::Gold => p.required_gold,
        Resource::Silicon => p.required_silicon,
        Resource::Plastic => p.required_plastic,
    }
}

/// The construction still lacks some `r`.
pub open spec fn needs(p: PartialEntity, r: Resource) -> bool {
    contributed(p, r) < required(p, r)
}

/// The construction after receiving one more `r`.
pub open spec fn contribute(p: PartialEntity, r: Resource) -> PartialEntity {
    match r {
        Resource::Copper => PartialEntity { contributed_copper: (p.contributed_copper + 1) as u8, ..p },
        Resource::Gold => PartialEntity { contributed_gold: (p.contributed_gold + 1) as u8, ..p },
        Resource::Silicon => PartialEntity { contributed_silicon: (p.contributed_silicon + 1) as u8, ..p },
        Resource::Plastic => PartialEntity { contributed_plastic: (p.contributed_plastic + 1) as u8, ..p },
    }
}

/// Every resource the construction needs has been given.
pub open spec fn is_complete(p: PartialEntity) -> bool {
    &&& p.contributed_copper == p.required_copper
    &&& p.contributed_gold == p.required_gold
    &&& p.contributed_silicon == p.required_silicon
    &&& p.contributed_plastic == p.required_plastic
}

/// A construction site of type `t` that has received nothing yet: an antenna
/// needs two of each resource.
pub open spec fn fresh_partial_entity(t: PartialEntityType) -> PartialEntity {
    match t {
        PartialEntityType::Antenna => PartialEntity {
            entity_type: t,
            contributed_copper: 0,
            required_copper: 2,
            contributed_gold: 0,
            required_gold: 2,
            contributed_silicon: 0,
            required_silicon: 2,
            contributed_plastic: 0,
            required_plastic: 2,
        },
    }
}

/// The entity that a finished construction of type `t` becomes.
pub open spec fn finished_entity(t: PartialEntityType, controller_id: EntityID) -> Entity {
    match t {
        PartialEntityType::Antenna => Entity::Antenna(
            Antenna {
                controller_id,
                stored_copper: 0,
                stored_gold: 0,
                stored_silicon: 0,
                stored_plastic: 0,
            },
        ),
    }
}

/// The cell one step from `(x, y)` in direction `d`.
pub open spec fn neighbor(x: int, y: int, d: Direction) -> (int, int) {
    match d {
        Direction::Up => (x, y - 1),
        Direction::Down => (x, y + 1),
        Direction::Left => (x - 1, y),
        Direction::Right => (x + 1, y),
    }
}

pub open spec fn abs(a: int) -> int {
    if a < 0 {
        -a
    } else {
        a
    }
}

/// `(x, y)` shares a side with the bot's cell.
pub open spec fn adjacent(bot: Bot, x: int, y: int) -> bool {
    abs(bot.x - x) + abs(bot.y - y) == 1
}

/// An antenna of the bot's controller stands at `(x, y)`.
pub open spec fn controlled_antenna_at(v: BayView, bot: Bot, x: int, y: int) -> bool {
    &&& v.entity_at(x, y) matches Some(Entity::Antenna(a))
    &&& a.controller_id == bot.controller_id
}

/// The antenna at `(x, y)`; meaningful where one stands there.
pub open spec fn antenna_at(v: BayView, x: int, y: int) -> Antenna {
    v.entity_at(x, y)->0->Antenna_0
}

/// Whether the bot may move one cell in direction `d`.
pub open spec fn check_move_towards(bot: Bot, d: Direction, v: BayView) -> Result<(), ActionError> {
    let (nx, ny) = neighbor(bot.x as int, bot.y as int, d);
    if bot.energy < MOVE_TOWARDS_ENERGY {
        Err(ActionError::NotEnoughEnergy)
    } else if in_bounds(nx, ny) && v.is_vacant(nx, ny) {
        Ok(())
    } else {
        Err(ActionError::ActionNotPossible)
    }
}

/// Whether the bot may pick up the resource at `(x, y)`.
pub open spec fn check_harvest_resource(bot: Bot, x: u32, y: u32, v: BayView) -> Result<
    (),
    ActionError,
> {
    if bot.energy < HARVEST_RESOURCE_ENERGY {
        Err(ActionError::NotEnoughEnergy)
    } else if bot.held_resource is None && in_bounds(x as int, y as int) && (v.entity_at(
        x as int,
        y as int,
    ) matches Some(Entity::Resource(_))) && adjacent(bot, x as int, y as int) {
        Ok(())
    } else {
        Err(ActionError::ActionNotPossible)
    }
}

/// Whether the bot may put its resource into the antenna at `(x, y)`.
pub open spec fn check_deposit_resource(bot: Bot, x: u32, y: u32, v: BayView) -> Result<
    (),
    ActionError,
> {
    if bot.energy < DEPOSIT_RESOURCE_ENERGY {
        Err(ActionError::NotEnoughEnergy)
    } else if bot.held_resource is Some && controlled_antenna_at(v, bot, x as int, y as int)
        && stored(antenna_at(v, x as int, y as int), bot.held_resource->0) < u8::MAX && adjacent(
        bot,
        x as int,
        y as int,
    ) {
        Ok(())
    } else {
        Err(ActionError::ActionNotPossible)
    }
}

/// Whether the bot may take one `r` out of the antenna at `(x, y)`.
pub open spec fn check_withdraw_resource(bot: Bot, r: Resource, x: u32, y: u32, v: BayView) -> Result<
    (),
    ActionError,
> {
    if bot.energy < WITHDRAW_RESOURCE_ENERGY {
        Err(ActionError::NotEnoughEnergy)
    } else if bot.held_resource is None && controlled_antenna_at(v, bot, x as int, y as int)
        && stored(antenna_at(v, x as int, y as int), r) > 0 && adjacent(bot, x as int, y as int) {
        Ok(())
    } else {
        Err(ActionError::ActionNotPossible)
    }
}

/// Who may build what: in a controlled bay its controller may build anything
/// but an antenna; in a bay without controller only an antenna may be built.
pub open spec fn may_build_in(bot: Bot, t: PartialEntityType, v: BayView) -> bool {
    match v.controller_id {
        Some(c) => c == bot.controller_id && t != PartialEntityType::Antenna,
        None => t == PartialEntityType::Antenna,
    }
}

/// The cell `(x, y)` can take the bot's held resource towards a `t`: it is
/// empty, or holds a construction of type `t` that still needs it.
pub open spec fn site_accepts(v: BayView, t: PartialEntityType, r: Resource, x: int, y: int) -> bool {
    match v.entity_at(x, y) {
        None => true,
        Some(Entity::PartialEntity(p)) => p.entity_type == t && needs(p, r),
        Some(_) => false,
    }
}

/// Whether the bot may give its held resource towards a `t` at `(x, y)`.
pub open spec fn check_build_entity(
    bot: Bot,
    t: PartialEntityType,
    x: u32,
    y: u32,
    v: BayView,
) -> Result<(), ActionError> {
    if bot.energy < BUILD_ENTITY_ENERGY {
        Err(ActionError::NotEnoughEnergy)
    } else if may_build_in(bot, t, v) && bot.held_resource is Some && in_bounds(x as int, y as int)
        && site_accepts(v, t, bot.held_resource->0, x as int, y as int) {
        Ok(())
    } else {
        Err(ActionError::ActionNotPossible)
    }
}

/// Whether the bot `bot_id` of the bay may take `action`.
pub open spec fn check_action(v: BayView, bot_id: EntityID, action: BotAction) -> Result<
    (),
    ActionError,
> {
    if !v.is_bot(bot_id) {
        Err(ActionError::ActionNotPossible)
    } else {
        let bot = v.bot(bot_id);
        match action {
            BotAction::MoveTowards(d) => check_move_towards(bot, d, v),
            BotAction::HarvestResource { x, y } => check_harvest_resource(bot, x, y, v),
            BotAction::DepositResource { x, y } => check_deposit_resource(bot, x, y, v),
            BotAction::WithdrawResource { resource, x, y } => check_withdraw_resource(
                bot,
                resource,
                x,
                y,
                v,
            ),
            BotAction::BuildEntity { entity_type, x, y } => check_build_entity(
                bot,
                entity_type,
                x,
                y,
                v,
            ),
        }
    }
}

/// The bot with a new energy level and held resource.
pub open spec fn bot_with(b: Bot, energy: int, held: Option<Resource>) -> Bot {
    Bot { energy: energy as u32, held_resource: held, ..b }
}

/// The bay with the table entry of bot `id` replaced by `b`, in place.
pub open spec fn put_bot(v: BayView, id: EntityID, b: Bot) -> Map<EntityID, (Entity, u32, u32)> {
    v.entities.insert(id, (Entity::Bot(b), v.entities[id].1, v.entities[id].2))
}

/// The bay after the bot moves one cell in direction `d`.
pub open spec fn moved(v: BayView, bot_id: EntityID, d: Direction) -> BayView {
    let b = v.bot(bot_id);
    let (nx, ny) = neighbor(b.x as int, b.y as int, d);
    let nb = Bot { x: nx as usize, y: ny as usize, energy: (b.energy - MOVE_TOWARDS_ENERGY) as u32, ..b };
    BayView { entities: v.entities.insert(bot_id, (Entity::Bot(nb), nx as u32, ny as u32)), ..v }
}

/// The bay after the bot picks up the resource at `(x, y)`.
pub open spec fn harvested(v: BayView, bot_id: EntityID, x: u32, y: u32) -> BayView {
    let b = v.bot(bot_id);
    let rid = v.occupant(x as int, y as int)->0;
    let r = v.entity(rid)->Resource_0;
    let nb = bot_with(b, b.energy - HARVEST_RESOURCE_ENERGY, Some(r));
    BayView { entities: put_bot(v, bot_id, nb).remove(rid), ..v }
}

/// The bay after the bot puts its resource into the antenna at `(x, y)`.
pub open spec fn deposited(v: BayView, bot_id: EntityID, x: u32, y: u32) -> BayView {
    let b = v.bot(bot_id);
    let r = b.held_resource->0;
    let aid = v.occupant(x as int, y as int)->0;
    let a = v.entity(aid)->Antenna_0;
    let na = with_stored(a, r, (stored(a, r) + 1) as u8);
    let nb = bot_with(b, b.energy - DEPOSIT_RESOURCE_ENERGY, None);
    BayView { entities: put_bot(v, bot_id, nb).insert(aid, (Entity::Antenna(na), x, y)), ..v }
}

/// The bay after the bot takes one `r` out of the antenna at `(x, y)`.
pub open spec fn withdrawn(v: BayView, bot_id: EntityID, r: Resource, x: u32, y: u32) -> BayView {
    let b = v.bot(bot_id);
    let aid = v.occupant(x as int, y as int)->0;
    let a = v.entity(aid)->Antenna_0;
    let na = with_stored(a, r, (stored(a, r) - 1) as u8);
    let nb = bot_with(b, b.energy - WITHDRAW_RESOURCE_ENERGY, Some(r));
    BayView { entities: put_bot(v, bot_id, nb).insert(aid, (Entity::Antenna(na), x, y)), ..v }
}

/// The first id at or after `n`, counting upwards with wrap-around and trying
/// at most `tries` further ids, that `used` does not hold.
pub open spec fn first_unused(used: Set<EntityID>, n: EntityID, tries: nat) -> EntityID
    decreases tries,
{
    if !used.contains(n) || tries == 0 {
        n
    } else {
        first_unused(used, n.wrapping_add(1), (tries - 1) as nat)
    }
}

/// The id a new entity of the bay receives when the allocator hands out `n`:
/// `n` itself unless the bay already uses it.
pub open spec fn fresh_id(v: BayView, n: EntityID) -> EntityID {
    first_unused(v.entities.dom(), n, v.entities.dom().len())
}

/// The construction at `(x, y)` once the bot's resource is added: the existing
/// site, or a new one of type `t`.
pub open spec fn site_after(v: BayView, t: PartialEntityType, r: Resource, x: u32, y: u32) -> PartialEntity {
    match v.occupant(x as int, y as int) {
        Some(pid) => contribute(v.entity(pid)->PartialEntity_0, r),
        None => contribute(fresh_partial_entity(t), r),
    }
}

/// The bay after the bot gives its held resource towards a `t` at `(x, y)`;
/// `n` is the value the id allocator handed out, used when the cell was empty.
pub open spec fn built(v: BayView, bot_id: EntityID, t: PartialEntityType, x: u32, y: u32, n: EntityID) -> BayView {
    let b = v.bot(bot_id);
    let r = b.held_resource->0;
    let site = match v.occupant(x as int, y as int) {
        Some(pid) => pid,
        None => fresh_id(v, n),
    };
    let p = site_after(v, t, r, x, y);
    let done = is_complete(p);
    let e = if done {
        finished_entity(p.entity_type, b.controller_id)
    } else {
        Entity::PartialEntity(p)
    };
    let nb = bot_with(b, b.energy - BUILD_ENTITY_ENERGY, None);
    BayView {
        entities: put_bot(v, bot_id, nb).insert(site, (e, x, y)),
        controller_id: if done && p.entity_type == PartialEntityType::Antenna {
            Some(b.controller_id)
        } else {
            v.controller_id
        },
    }
}

/// The bay after the bot `bot_id` takes `action`; `n` is the value the id
/// allocator hands out should the action create an entity.
pub open spec fn applied(v: BayView, bot_id: EntityID, action: BotAction, n: EntityID) -> BayView {
    match action {
        BotAction::MoveTowards(d) => moved(v, bot_id, d),
        BotAction::HarvestResource { x, y } => harvested(v, bot_id, x, y),
        BotAction::DepositResource { x, y } => deposited(v, bot_id, x, y),
        BotAction::WithdrawResource { resource, x, y } => withdrawn(v, bot_id, resource, x, y),
        BotAction::BuildEntity { entity_type, x, y } => built(v, bot_id, entity_type, x, y, n),
    }
}

/// The energy of a bot after a recharge of `amount`, which stops at `u32::MAX`.
pub open spec fn recharged_energy(energy: u32, amount: u32) -> u32 {
    if energy + amount > u32::MAX {
        u32::MAX
    } else {
        (energy + amount) as u32
    }
}

/// The bay after the bot `id`, if it is one, regains `amount` energy.
pub open spec fn recharged_one(v: BayView, id: EntityID, amount: u32) -> BayView {
    if v.is_bot(id) {
        let b = v.bot(id);
        BayView { entities: put_bot(v, id, bot_with(b, recharged_energy(b.energy, amount) as int, b.held_resource)), ..v }
    } else {
        v
    }
}

/// The bay after each listed bot, in order, regains `amount` energy.
pub open spec fn recharged(v: BayView, ids: Seq<EntityID>, amount: u32) -> BayView
    decreases ids.len(),
{
    if ids.len() == 0 {
        v
    } else {
        recharged_one(recharged(v, ids.drop_last(), amount), ids.last(), amount)
    }
}

} // verus!

verus! {

/// Rewriting entries that are not antennas, or antennas only in their stores,
/// keeps the controller rule.
pub proof fn lemma_antennas_kept(v: BayView, w: BayView)
    requires
        v.controller_matches_antennas(),
        w.controller_id == v.controller_id,
        forall|id: EntityID| #[trigger] w.is_antenna(id) <==> v.is_antenna(id),
        forall|id: EntityID|
            #[trigger] v.is_antenna(id) ==> w.entity(id)->Antenna_0.controller_id == v.entity(
                id,
            )->Antenna_0.controller_id,
    ensures
        w.controller_matches_antennas(),
{
    match v.controller_id {
        None => {
            assert forall|id: EntityID| !#[trigger] w.is_antenna(id) by {
                assert(!v.is_antenna(id));
            }
        },
        Some(c) => {
            let a = choose|a: EntityID|
                {
                    &&& #[trigger] v.is_antenna(a)
                    &&& v.entity(a)->Antenna_0.controller_id == c
                    &&& forall|b: EntityID| #[trigger] v.is_antenna(b) ==> b == a
                };
            assert(w.is_antenna(a));
            assert forall|b: EntityID| #[trigger] w.is_antenna(b) implies b == a by {
                assert(v.is_antenna(b));
            }
        },
    }
}

/// Under the layout rules, two entities standing on one cell are the same.
pub proof fn lemma_single_occupant(v: BayView, a: EntityID, b: EntityID, x: int, y: int)
    requires
        v.wf(),
        v.occupies(a, x, y),
        v.occupies(b, x, y),
    ensures
        a == b,
{
    assert(v.has(a) && v.has(b));
}

/// Under the layout rules, the occupant of a cell is the entity standing there.
pub proof fn lemma_occupant_is(v: BayView, id: EntityID, x: int, y: int)
    requires
        v.wf(),
        v.occupies(id, x, y),
    ensures
        v.occupant(x, y) == Some(id),
        v.entity_at(x, y) == Some(v.entity(id)),
{
    assert(!v.is_vacant(x, y));
    let c = choose|c: EntityID| v.occupies(c, x, y);
    lemma_single_occupant(v, c, id, x, y);
}

} // verus!
