//! Laws that relate the rules of several actions, or a live game and its log.
use crate::bay::BayView;
use crate::codes::result_code;
use crate::config::{
    BAY_SIZE, BOT_ENERGY_PER_RECHARGE, BUILD_ENTITY_ENERGY, DEPOSIT_RESOURCE_ENERGY,
    HARVEST_RESOURCE_ENERGY, MOVE_TOWARDS_ENERGY, WITHDRAW_RESOURCE_ENERGY,
};
use crate::protocol::{call_code, HostCall};
use crate::rules::{
    adjacent, antenna_at, applied, check_action, check_build_entity, check_deposit_resource,
    check_harvest_resource, check_move_towards, check_withdraw_resource, deposited, harvested,
    recharged, stored, withdrawn,
};
use crate::types::{ActionError, Bot, BotAction, Direction, Entity, EntityID, PartialEntityType, Resource};
use vstd::prelude::*;

verus! {

/// What happens to a bay during a tick, in order: a bot's turn with what its
/// script chose (and what the id allocator hands out should the action create
/// an entity), or the recharge of the listed bots.
pub enum TickEvent {
    Turn { bot_id: EntityID, chosen: Option<BotAction>, allocated: EntityID },
    Recharge { bot_ids: Seq<EntityID> },
}

/// The bay after one event of the live game.
pub open spec fn live_step(v: BayView, e: TickEvent) -> BayView {
    match e {
        TickEvent::Turn { bot_id, chosen, allocated } => match chosen {
            Some(a) => if check_action(v, bot_id, a) is Ok {
                applied(v, bot_id, a, allocated)
            } else {
                v
            },
            None => v,
        },
        TickEvent::Recharge { bot_ids } => recharged(v, bot_ids, BOT_ENERGY_PER_RECHARGE),
    }
}

/// The bay after the events of the live game.
pub open spec fn live(v: BayView, events: Seq<TickEvent>) -> BayView
    decreases events.len(),
{
    if events.len() == 0 {
        v
    } else {
        live(live_step(v, events[0]), events.drop_first())
    }
}

/// What the live game logs for its events: each committed action (with the
/// id the allocator handed out) and each recharge.
pub open spec fn logged(v: BayView, events: Seq<TickEvent>) -> Seq<TickEvent>
    decreases events.len(),
{
    if events.len() == 0 {
        Seq::empty()
    } else {
        let e = events[0];
        let entry = match e {
            TickEvent::Turn { bot_id, chosen, .. } => match chosen {
                Some(a) => if check_action(v, bot_id, a) is Ok {
                    seq![e]
                } else {
                    Seq::empty()
                },
                None => Seq::empty(),
            },
            TickEvent::Recharge { .. } => seq![e],
        };
        entry + logged(live_step(v, e), events.drop_first())
    }
}

/// The bay after replaying logged entries: each action is checked again and
/// committed; `None` where one is not allowed.
pub open spec fn replayed(v: BayView, log: Seq<TickEvent>) -> Option<BayView>
    decreases log.len(),
{
    if log.len() == 0 {
        Some(v)
    } else {
        let next = match log[0] {
            TickEvent::Turn { bot_id, chosen, allocated } => match chosen {
                Some(a) => if check_action(v, bot_id, a) is Ok {
                    Some(applied(v, bot_id, a, allocated))
                } else {
                    None
                },
                None => None,
            },
            TickEvent::Recharge { bot_ids } => Some(recharged(v, bot_ids, BOT_ENERGY_PER_RECHARGE)),
        };
        match next {
            Some(w) => replayed(w, log.drop_first()),
            None => None,
        }
    }
}

proof fn lemma_replayed_append(v: BayView, entry: Seq<TickEvent>, rest: Seq<TickEvent>, w: BayView)
    requires
        entry.len() <= 1,
        replayed(v, entry) == Some(w),
    ensures
        replayed(v, entry + rest) == replayed(w, rest),
{
    reveal_with_fuel(replayed, 2);
    if entry.len() == 1 {
        assert((entry + rest)[0] == entry[0]);
        assert((entry + rest).drop_first() == rest);
        assert(entry.drop_first() == Seq::<TickEvent>::empty());
    } else {
        assert(entry + rest == rest);
    }
}

/// Replaying what a live bay logged, from the state it started in, rebuilds
/// the state it reached: every logged action is allowed again when replayed,
/// and nothing the live game did is missing from its log.
pub proof fn lemma_replay_rebuilds_live_state(v: BayView, events: Seq<TickEvent>)
    ensures
        replayed(v, logged(v, events)) == Some(live(v, events)),
    decreases events.len(),
{
    if events.len() > 0 {
        let e = events[0];
        let w = live_step(v, e);
        lemma_replay_rebuilds_live_state(w, events.drop_first());
        let entry = match e {
            TickEvent::Turn { bot_id, chosen, .. } => match chosen {
                Some(a) => if check_action(v, bot_id, a) is Ok {
                    seq![e]
                } else {
                    Seq::empty()
                },
                None => Seq::empty(),
            },
            TickEvent::Recharge { .. } => seq![e],
        };
        assert(logged(v, events) == entry + logged(w, events.drop_first()));
        if entry.len() == 1 {
            assert(entry.drop_first() == Seq::<TickEvent>::empty());
        }
        assert(replayed(v, entry) == Some(w)) by {
            reveal_with_fuel(replayed, 2);
        }
        lemma_replayed_append(v, entry, logged(w, events.drop_first()), w);
    }
}

/// In a table whose entries stand where they stood in a well-formed one, an
/// entity on a cell is that cell's occupant.
proof fn lemma_occupant_in_place(v: BayView, w: BayView, id: EntityID, x: int, y: int)
    requires
        v.wf(),
        forall|k: EntityID| #[trigger] w.has(k) ==> v.has(k) && w.pos_x(k) == v.pos_x(k) && w.pos_y(k) == v.pos_y(k),
        w.occupies(id, x, y),
    ensures
        w.occupant(x, y) == Some(id),
        v.occupant(x, y) == Some(id),
{
    assert(!w.is_vacant(x, y));
    let c = choose|c: EntityID| w.occupies(c, x, y);
    assert(v.has(c) && v.has(id));
    crate::rules::lemma_occupant_is(v, id, x, y);
}

/// Harvesting a resource and depositing it into an antenna of one's
/// controller adds one unit of that resource to the antenna and changes none
/// of its other counts.
pub proof fn lemma_harvest_then_deposit(v: BayView, bot_id: EntityID, hx: u32, hy: u32, ax: u32, ay: u32)
    requires
        v.wf(),
        check_action(v, bot_id, BotAction::HarvestResource { x: hx, y: hy }) == Ok::<(), ActionError>(()),
        check_action(harvested(v, bot_id, hx, hy), bot_id, BotAction::DepositResource { x: ax, y: ay })
            == Ok::<(), ActionError>(()),
    ensures
        ({
            let r = v.entity_at(hx as int, hy as int)->0->Resource_0;
            let u = deposited(harvested(v, bot_id, hx, hy), bot_id, ax, ay);
            &&& stored(antenna_at(u, ax as int, ay as int), r) == stored(antenna_at(v, ax as int, ay as int), r) + 1
            &&& forall|o: Resource| o != r ==> stored(antenna_at(u, ax as int, ay as int), o) == stored(
                antenna_at(v, ax as int, ay as int),
                o,
            )
        }),
{
    let w = harvested(v, bot_id, hx, hy);
    let u = deposited(w, bot_id, ax, ay);
    let rid = v.occupant(hx as int, hy as int)->0;
    let aid = w.occupant(ax as int, ay as int)->0;
    assert(!v.is_vacant(hx as int, hy as int));
    assert(v.occupies(rid, hx as int, hy as int));
    assert(!w.is_vacant(ax as int, ay as int));
    assert(w.occupies(aid, ax as int, ay as int));
    lemma_occupant_in_place(v, w, aid, ax as int, ay as int);
    assert(forall|k: EntityID| #[trigger] u.has(k) ==> v.has(k) && u.pos_x(k) == v.pos_x(k) && u.pos_y(k) == v.pos_y(k));
    assert(u.occupies(aid, ax as int, ay as int));
    lemma_occupant_in_place(v, u, aid, ax as int, ay as int);
    assert(w.bot(bot_id).held_resource == Some(v.entity(rid)->Resource_0));
    assert(v.entity_at(hx as int, hy as int) == Some(v.entity(rid)));
    assert(aid != bot_id);
    assert(w.entity(aid) == v.entity(aid));
}

/// Withdrawing a unit from an antenna and depositing it back leaves the
/// antenna as it was.
pub proof fn lemma_withdraw_then_deposit(v: BayView, bot_id: EntityID, r: Resource, x: u32, y: u32)
    requires
        v.wf(),
        check_action(v, bot_id, BotAction::WithdrawResource { resource: r, x, y }) == Ok::<(), ActionError>(()),
        check_action(withdrawn(v, bot_id, r, x, y), bot_id, BotAction::DepositResource { x, y })
            == Ok::<(), ActionError>(()),
    ensures
        antenna_at(deposited(withdrawn(v, bot_id, r, x, y), bot_id, x, y), x as int, y as int)
            == antenna_at(v, x as int, y as int),
{
    let w = withdrawn(v, bot_id, r, x, y);
    let u = deposited(w, bot_id, x, y);
    let aid = v.occupant(x as int, y as int)->0;
    assert(!v.is_vacant(x as int, y as int));
    assert(v.occupies(aid, x as int, y as int));
    assert(w.occupies(aid, x as int, y as int));
    lemma_occupant_in_place(v, w, aid, x as int, y as int);
    assert(u.occupies(aid, x as int, y as int));
    lemma_occupant_in_place(v, u, aid, x as int, y as int);
    assert(aid != bot_id);
    let a = v.entity(aid)->Antenna_0;
    assert(antenna_at(u, x as int, y as int) =~= a);
}

/// A move off the edge of the grid is refused as impossible whenever the bot
/// has the energy to move.
pub proof fn lemma_move_off_edge_refused(bot: Bot, d: Direction, v: BayView)
    requires
        bot.energy >= MOVE_TOWARDS_ENERGY,
        (d == Direction::Up && bot.y == 0) || (d == Direction::Down && bot.y == BAY_SIZE - 1) || (d
            == Direction::Left && bot.x == 0) || (d == Direction::Right && bot.x == BAY_SIZE - 1),
    ensures
        check_move_towards(bot, d, v) == Err::<(), ActionError>(ActionError::ActionNotPossible),
{
}

/// Harvesting, depositing and withdrawing need a neighbouring cell: with the
/// energy to act, any other target is refused as impossible.
pub proof fn lemma_far_target_refused(bot: Bot, r: Resource, x: u32, y: u32, v: BayView)
    requires
        !adjacent(bot, x as int, y as int),
    ensures
        bot.energy >= HARVEST_RESOURCE_ENERGY ==> check_harvest_resource(bot, x, y, v) == Err::<
            (),
            ActionError,
        >(ActionError::ActionNotPossible),
        bot.energy >= DEPOSIT_RESOURCE_ENERGY ==> check_deposit_resource(bot, x, y, v) == Err::<
            (),
            ActionError,
        >(ActionError::ActionNotPossible),
        bot.energy >= WITHDRAW_RESOURCE_ENERGY ==> check_withdraw_resource(bot, r, x, y, v) == Err::<
            (),
            ActionError,
        >(ActionError::ActionNotPossible),
{
}

/// An antenna holding the most units of a resource it can count refuses a
/// deposit of that resource as impossible.
pub proof fn lemma_full_antenna_refuses_deposit(bot: Bot, x: u32, y: u32, v: BayView)
    requires
        bot.energy >= DEPOSIT_RESOURCE_ENERGY,
        bot.held_resource is Some,
        v.entity_at(x as int, y as int) matches Some(Entity::Antenna(a)) && stored(a, bot.held_resource->0) == u8::MAX,
    ensures
        check_deposit_resource(bot, x, y, v) == Err::<(), ActionError>(ActionError::ActionNotPossible),
{
}

/// In a bay without controller only an antenna can be built: a build call
/// naming another type is refused as impossible.
pub proof fn lemma_uncontrolled_bay_builds_only_antennas(v: BayView, bot_id: EntityID, entity_type: u32, x: u32, y: u32)
    requires
        v.controller_id is None,
        entity_type != 0,
    ensures
        call_code(None, v, bot_id, HostCall::BuildEntity { entity_type, x, y }) == result_code(
            Err(ActionError::ActionNotPossible),
        ),
{
}

/// A bay that has a controller already has its antenna: building another is
/// refused as impossible.
pub proof fn lemma_controlled_bay_refuses_antenna(bot: Bot, x: u32, y: u32, v: BayView)
    requires
        bot.energy >= BUILD_ENTITY_ENERGY,
        v.controller_id is Some,
    ensures
        check_build_entity(bot, PartialEntityType::Antenna, x, y, v) == Err::<(), ActionError>(
            ActionError::ActionNotPossible,
        ),
{
}

} // verus!

verus! {

/// The energy an action costs its bot.
pub open spec fn action_energy(a: BotAction) -> u32 {
    match a {
        BotAction::MoveTowards(_) => MOVE_TOWARDS_ENERGY,
        BotAction::HarvestResource { .. } => HARVEST_RESOURCE_ENERGY,
        BotAction::DepositResource { .. } => DEPOSIT_RESOURCE_ENERGY,
        BotAction::WithdrawResource { .. } => WITHDRAW_RESOURCE_ENERGY,
        BotAction::BuildEntity { .. } => BUILD_ENTITY_ENERGY,
    }
}

/// Energy never goes negative: an action is allowed only when its bot has
/// the energy it costs, and committing it takes exactly that much.
pub proof fn lemma_commit_spends_energy(v: BayView, bot_id: EntityID, a: BotAction, n: EntityID)
    requires
        v.wf(),
        v.entities.dom().len() < 0x1_0000_0000_0000_0000,
        check_action(v, bot_id, a) == Ok::<(), ActionError>(()),
    ensures
        v.bot(bot_id).energy >= action_energy(a),
        applied(v, bot_id, a, n).is_bot(bot_id),
        applied(v, bot_id, a, n).bot(bot_id).energy == v.bot(bot_id).energy - action_energy(a),
{
    match a {
        BotAction::HarvestResource { x, y } => {
            let rid = v.occupant(x as int, y as int)->0;
            assert(!v.is_vacant(x as int, y as int));
            assert(v.occupies(rid, x as int, y as int));
            assert(rid != bot_id);
        },
        BotAction::DepositResource { x, y } | BotAction::WithdrawResource { x, y, .. } => {
            let aid = v.occupant(x as int, y as int)->0;
            assert(!v.is_vacant(x as int, y as int));
            assert(v.occupies(aid, x as int, y as int));
            assert(aid != bot_id);
        },
        BotAction::BuildEntity { x, y, .. } => {
            if v.is_vacant(x as int, y as int) {
                crate::ids::lemma_fresh_id_unused(v.entities.dom(), n);
            } else {
                let pid = v.occupant(x as int, y as int)->0;
                assert(v.occupies(pid, x as int, y as int));
                assert(pid != bot_id);
            }
        },
        BotAction::MoveTowards(_) => {},
    }
}

} // verus!
