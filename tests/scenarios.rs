use botnet::{
    apply_record, host_call, Antenna, Bay, Bot, BotAction, Direction, Entity, EntityID, HostCall,
    PartialEntity, PartialEntityType, ReplayError, ReplayRecord, Resource, BAY_SIZE,
};
use std::collections::HashMap;
use std::sync::atomic::AtomicU64;

const PLAYER: EntityID = 1;

fn empty_bay() -> Bay {
    Bay { entities: HashMap::new(), cells: [[None; BAY_SIZE]; BAY_SIZE], controller_id: None }
}

fn put(bay: &mut Bay, id: EntityID, entity: Entity, x: u32, y: u32) {
    bay.entities.insert(id, (entity, x, y));
    bay.cells[x as usize][y as usize] = Some(id);
}

fn put_bot(bay: &mut Bay, id: EntityID, energy: u32, held: Option<Resource>, x: u32, y: u32) {
    let bot = Bot { id, controller_id: PLAYER, energy, held_resource: held, x: x as usize, y: y as usize };
    put(bay, id, Entity::Bot(bot), x, y);
}

fn bot_of(bay: &Bay, id: EntityID) -> Bot {
    *bay.get_bot(id).unwrap()
}

fn copy_bay(bay: &Bay) -> Bay {
    Bay { entities: bay.entities.clone(), cells: bay.cells, controller_id: bay.controller_id }
}

/// Every entity stands at its cell, every filled cell names an entity standing
/// there, and a bay has one antenna exactly when it has a controller.
fn assert_layout(bay: &Bay) {
    for (id, (_, x, y)) in &bay.entities {
        assert_eq!(bay.cells[*x as usize][*y as usize], Some(*id));
    }
    for x in 0..BAY_SIZE {
        for y in 0..BAY_SIZE {
            if let Some(id) = bay.cells[x][y] {
                let (_, ex, ey) = bay.entities[&id];
                assert_eq!((ex as usize, ey as usize), (x, y));
            }
        }
    }
    let antennas = bay.entities.values().filter(|(e, _, _)| matches!(e, Entity::Antenna(_))).count();
    assert_eq!(antennas, if bay.controller_id.is_some() { 1 } else { 0 });
}

/// Runs one call of an action import for the bot, and commits what it chose.
fn act(bay: &mut Bay, bot_id: EntityID, call: HostCall, next: &AtomicU64) -> u32 {
    let mut slot = None;
    let code = host_call(&mut slot, bot_id, bay, call);
    bay.tick_bot(0, bot_id, slot, next);
    code
}

#[test]
fn adjacent_move() {
    let mut bay = empty_bay();
    put_bot(&mut bay, 7, 100, None, 12, 12);
    let next = AtomicU64::new(100);
    let mut slot = None;
    assert_eq!(host_call(&mut slot, 7, &bay, HostCall::MoveTowards { direction: 3 }), 0);
    assert_eq!(slot, Some(BotAction::MoveTowards(Direction::Right)));
    let record = bay.tick_bot(0, 7, slot, &next);
    assert!(matches!(record, Some(ReplayRecord::BotAction { bot_id: 7, .. })));
    let bot = bot_of(&bay, 7);
    assert_eq!((bot.x, bot.y, bot.energy), (13, 12, 90));
    assert_eq!(bay.cells[12][12], None);
    assert_eq!(bay.cells[13][12], Some(7));
    assert_eq!(bay.entities[&7].1, 13);
    assert_eq!(bay.entities[&7].2, 12);
    assert_layout(&bay);
}

#[test]
fn harvest_adjacent_resource() {
    let mut bay = empty_bay();
    put_bot(&mut bay, 7, 100, None, 5, 5);
    put(&mut bay, 8, Entity::Resource(Resource::Silicon), 5, 6);
    let next = AtomicU64::new(100);
    assert_eq!(act(&mut bay, 7, HostCall::HarvestResource { x: 5, y: 6 }, &next), 0);
    let bot = bot_of(&bay, 7);
    assert_eq!(bot.held_resource, Some(Resource::Silicon));
    assert_eq!(bot.energy, 70);
    assert_eq!(bay.cells[5][6], None);
    assert!(!bay.entities.contains_key(&8));
}

#[test]
fn harvest_too_far() {
    let mut bay = empty_bay();
    put_bot(&mut bay, 7, 100, None, 5, 5);
    put(&mut bay, 8, Entity::Resource(Resource::Silicon), 5, 7);
    let before = copy_bay(&bay);
    let mut slot = None;
    assert_eq!(host_call(&mut slot, 7, &bay, HostCall::HarvestResource { x: 5, y: 7 }), 1);
    assert_eq!(slot, None);
    assert!(bay.entities == before.entities && bay.cells == before.cells);
}

#[test]
fn build_antenna_to_completion() {
    let mut bay = empty_bay();
    put_bot(&mut bay, 7, 100, Some(Resource::Copper), 9, 10);
    let next = AtomicU64::new(100);
    let call = HostCall::BuildEntity { entity_type: 0, x: 10, y: 10 };
    assert_eq!(act(&mut bay, 7, call, &next), 0);
    let site = bay.cells[10][10].unwrap();
    match bay.entities[&site].0 {
        Entity::PartialEntity(p) => {
            assert_eq!(p.entity_type, PartialEntityType::Antenna);
            assert_eq!((p.contributed_copper, p.contributed_gold, p.contributed_silicon, p.contributed_plastic), (1, 0, 0, 0));
        },
        _ => panic!("no construction site"),
    }
    let bot = bot_of(&bay, 7);
    assert_eq!((bot.held_resource, bot.energy), (None, 70));
    let rest = [
        Resource::Copper,
        Resource::Gold,
        Resource::Gold,
        Resource::Silicon,
        Resource::Silicon,
        Resource::Plastic,
        Resource::Plastic,
    ];
    for resource in rest {
        assert_eq!(bay.controller_id, None);
        put_bot(&mut bay, 7, 100, Some(resource), 9, 10);
        assert_eq!(act(&mut bay, 7, call, &next), 0);
        assert_layout(&bay);
    }
    assert_eq!(bay.cells[10][10], Some(site));
    match bay.entities[&site].0 {
        Entity::Antenna(a) => assert_eq!(
            a,
            Antenna { controller_id: PLAYER, stored_copper: 0, stored_gold: 0, stored_silicon: 0, stored_plastic: 0 }
        ),
        _ => panic!("antenna not finished"),
    }
    assert_eq!(bay.controller_id, Some(PLAYER));
}

#[test]
fn budget_overrun_leaves_bay_and_recharges() {
    let mut bay = empty_bay();
    put_bot(&mut bay, 7, 100, None, 3, 3);
    let next = AtomicU64::new(100);
    let before = copy_bay(&bay);
    assert!(bay.tick_bot(0, 7, None, &next).is_none());
    assert!(bay.entities == before.entities && bay.cells == before.cells);
    let ids = bay.get_bot_ids();
    let record = bay.recharge_bots(0, &ids);
    assert!(matches!(record, ReplayRecord::RechargeBots { bay_id: 0, ref bot_ids } if bot_ids == &vec![7]));
    assert_eq!(bot_of(&bay, 7).energy, 105);
}

#[test]
fn replay_rebuilds_live_bay() {
    let mut bay = empty_bay();
    put_bot(&mut bay, 1, 100, Some(Resource::Gold), 4, 4);
    put_bot(&mut bay, 2, 100, None, 8, 8);
    put(&mut bay, 3, Entity::Resource(Resource::Plastic), 8, 9);
    let initial = copy_bay(&bay);
    let live_next = AtomicU64::new(50);
    let mut log = Vec::new();
    let turns = [
        (1, Some(BotAction::BuildEntity { entity_type: PartialEntityType::Antenna, x: 4, y: 5 })),
        (2, Some(BotAction::HarvestResource { x: 8, y: 9 })),
        (1, Some(BotAction::MoveTowards(Direction::Left))),
        (2, None),
        (2, Some(BotAction::MoveTowards(Direction::Up))),
        (1, Some(BotAction::HarvestResource { x: 0, y: 0 })),
    ];
    for (tick, chunk) in turns.chunks(2).enumerate() {
        log.push(ReplayRecord::TickStart);
        for (bot_id, chosen) in chunk {
            if let Some(record) = bay.tick_bot(0, *bot_id, *chosen, &live_next) {
                log.push(record);
            }
        }
        let ids = bay.get_bot_ids();
        log.push(bay.recharge_bots(0, &ids));
        assert!(tick < 3);
    }
    let mut replayed = initial;
    let replay_next = AtomicU64::new(50);
    for record in log {
        assert_eq!(apply_record(record, &mut replayed, &replay_next), Ok(()));
    }
    assert_layout(&bay);
    assert!(replayed.entities == bay.entities);
    assert!(replayed.cells == bay.cells);
    assert_eq!(replayed.controller_id, bay.controller_id);
}

#[test]
fn replay_refuses_header_and_disallowed_actions() {
    let mut bay = empty_bay();
    put_bot(&mut bay, 1, 100, None, 0, 0);
    let next = AtomicU64::new(0);
    assert_eq!(
        apply_record(ReplayRecord::GameVersion("0.1.0".to_string()), &mut bay, &next),
        Err(ReplayError::UnexpectedRecord)
    );
    assert_eq!(apply_record(ReplayRecord::InitialNextEntityID(3), &mut bay, &next), Err(ReplayError::UnexpectedRecord));
    let off_grid = ReplayRecord::BotAction { bay_id: 0, bot_id: 1, bot_action: BotAction::MoveTowards(Direction::Up) };
    assert_eq!(apply_record(off_grid, &mut bay, &next), Err(ReplayError::ActionNotAllowed));
    assert_eq!(apply_record(ReplayRecord::TickStart, &mut bay, &next), Ok(()));
    assert_eq!((bot_of(&bay, 1).x, bot_of(&bay, 1).y), (0, 0));
}

#[test]
fn second_action_is_already_acted() {
    let mut bay = empty_bay();
    put_bot(&mut bay, 7, 100, None, 12, 12);
    let mut slot = None;
    assert_eq!(host_call(&mut slot, 7, &bay, HostCall::MoveTowards { direction: 0 }), 0);
    assert_eq!(host_call(&mut slot, 7, &bay, HostCall::MoveTowards { direction: 1 }), 3);
    assert_eq!(host_call(&mut slot, 7, &bay, HostCall::HarvestResource { x: 1, y: 1 }), 3);
    assert_eq!(slot, Some(BotAction::MoveTowards(Direction::Up)));
    assert_eq!((bot_of(&bay, 7).x, bot_of(&bay, 7).y), (12, 12));
}

#[test]
fn refused_call_leaves_slot_empty_for_a_later_one() {
    let mut bay = empty_bay();
    put_bot(&mut bay, 7, 100, None, 0, 5);
    let mut slot = None;
    assert_eq!(host_call(&mut slot, 7, &bay, HostCall::MoveTowards { direction: 2 }), 1);
    assert_eq!(slot, None);
    assert_eq!(host_call(&mut slot, 7, &bay, HostCall::MoveTowards { direction: 9 }), 1);
    assert_eq!(host_call(&mut slot, 7, &bay, HostCall::MoveTowards { direction: 3 }), 0);
    assert_eq!(slot, Some(BotAction::MoveTowards(Direction::Right)));
}

#[test]
fn missing_bot_cannot_act() {
    let bay = empty_bay();
    let mut slot = None;
    assert_eq!(host_call(&mut slot, 42, &bay, HostCall::MoveTowards { direction: 0 }), 1);
    assert_eq!(slot, None);
}
