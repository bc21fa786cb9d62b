use botnet::{
    bot_can_build_entity, bot_can_deposit_resource, bot_can_harvest_resource, bot_can_move_towards,
    bot_can_withdraw_resource, host_call, ActionError, Antenna, Bay, Bot, BotAction, Direction, Entity,
    EntityID, HostCall, PartialEntityType, Resource, BAY_SIZE,
};
use std::collections::HashMap;
use std::sync::atomic::AtomicU64;

const PLAYER: EntityID = 1;

fn empty_bay() -> Bay {
    Bay { entities: HashMap::new(), cells: [[None; BAY_SIZE]; BAY_SIZE], controller_id: None }
}

fn put(bay: &mut Bay, id: EntityID, entity: Entity, x: u32, y: u32) {
    bay.entities.insert(id, (entity, x, y));
    bay.cells[x as usize][y as usize] = Some(id);
}

fn make_bot(id: EntityID, energy: u32, held: Option<Resource>, x: usize, y: usize) -> Bot {
    Bot { id, controller_id: PLAYER, energy, held_resource: held, x, y }
}

fn antenna(controller_id: EntityID, copper: u8) -> Antenna {
    Antenna { controller_id, stored_copper: copper, stored_gold: 0, stored_silicon: 0, stored_plastic: 0 }
}

fn stored_copper(bay: &Bay, x: usize, y: usize) -> u8 {
    match bay.entities[&bay.cells[x][y].unwrap()].0 {
        Entity::Antenna(a) => a.stored_copper,
        _ => panic!("no antenna"),
    }
}

/// A controlled bay: the player's antenna at (10, 10), a bot at (9, 10), copper at (8, 10).
fn controlled_bay(copper_in_antenna: u8, held: Option<Resource>) -> Bay {
    let mut bay = empty_bay();
    put(&mut bay, 2, Entity::Antenna(antenna(PLAYER, copper_in_antenna)), 10, 10);
    put(&mut bay, 3, Entity::Bot(make_bot(3, 100, held, 9, 10)), 9, 10);
    put(&mut bay, 4, Entity::Resource(Resource::Copper), 8, 10);
    bay.controller_id = Some(PLAYER);
    bay
}

#[test]
fn move_off_each_edge_is_not_possible() {
    let bay = empty_bay();
    let last = BAY_SIZE - 1;
    for (x, y, d) in [(5, 0, Direction::Up), (5, last, Direction::Down), (0, 5, Direction::Left), (last, 5, Direction::Right)] {
        let bot = make_bot(1, 100, None, x, y);
        assert_eq!(bot_can_move_towards(&bot, d, &bay), Err(ActionError::ActionNotPossible));
    }
}

#[test]
fn move_into_occupied_cell_is_not_possible() {
    let mut bay = empty_bay();
    put(&mut bay, 1, Entity::Bot(make_bot(1, 100, None, 4, 4)), 4, 4);
    put(&mut bay, 2, Entity::Resource(Resource::Gold), 4, 5);
    assert_eq!(bot_can_move_towards(&make_bot(1, 100, None, 4, 4), Direction::Down, &bay), Err(ActionError::ActionNotPossible));
    assert_eq!(bot_can_move_towards(&make_bot(1, 100, None, 4, 4), Direction::Up, &bay), Ok(()));
}

#[test]
fn low_energy_is_reported_first() {
    let bay = empty_bay();
    assert_eq!(bot_can_move_towards(&make_bot(1, 9, None, 0, 0), Direction::Up, &bay), Err(ActionError::NotEnoughEnergy));
    assert_eq!(bot_can_harvest_resource(&make_bot(1, 29, None, 0, 0), 0, 1, &bay), Err(ActionError::NotEnoughEnergy));
    assert_eq!(bot_can_deposit_resource(&make_bot(1, 4, None, 0, 0), 0, 1, &bay), Err(ActionError::NotEnoughEnergy));
    assert_eq!(
        bot_can_withdraw_resource(&make_bot(1, 9, None, 0, 0), Resource::Gold, 0, 1, &bay),
        Err(ActionError::NotEnoughEnergy)
    );
    assert_eq!(
        bot_can_build_entity(&make_bot(1, 29, None, 0, 0), PartialEntityType::Antenna, 0, 1, &bay),
        Err(ActionError::NotEnoughEnergy)
    );
    let mut slot = None;
    let mut low = empty_bay();
    put(&mut low, 1, Entity::Bot(make_bot(1, 5, None, 3, 3)), 3, 3);
    assert_eq!(host_call(&mut slot, 1, &low, HostCall::MoveTowards { direction: 0 }), 2);
}

#[test]
fn far_targets_are_not_possible() {
    let bay = controlled_bay(0, None);
    let far = make_bot(3, 100, None, 9, 12);
    assert_eq!(bot_can_harvest_resource(&far, 8, 10, &bay), Err(ActionError::ActionNotPossible));
    assert_eq!(bot_can_withdraw_resource(&far, Resource::Copper, 10, 10, &bay), Err(ActionError::ActionNotPossible));
    let far_loaded = make_bot(3, 100, Some(Resource::Copper), 9, 12);
    assert_eq!(bot_can_deposit_resource(&far_loaded, 10, 10, &bay), Err(ActionError::ActionNotPossible));
    let diagonal = make_bot(3, 100, Some(Resource::Copper), 9, 9);
    assert_eq!(bot_can_deposit_resource(&diagonal, 10, 10, &bay), Err(ActionError::ActionNotPossible));
}

#[test]
fn full_antenna_refuses_deposit() {
    let bay = controlled_bay(255, Some(Resource::Copper));
    let bot = *bay.get_bot(3).unwrap();
    assert_eq!(bot_can_deposit_resource(&bot, 10, 10, &bay), Err(ActionError::ActionNotPossible));
    let room = controlled_bay(254, Some(Resource::Copper));
    assert_eq!(bot_can_deposit_resource(&bot, 10, 10, &room), Ok(()));
}

#[test]
fn foreign_antenna_refuses_deposit_and_withdrawal() {
    let mut bay = empty_bay();
    put(&mut bay, 2, Entity::Antenna(antenna(99, 3)), 10, 10);
    bay.controller_id = Some(99);
    let bot = make_bot(3, 100, Some(Resource::Copper), 9, 10);
    put(&mut bay, 3, Entity::Bot(bot), 9, 10);
    assert_eq!(bot_can_deposit_resource(&bot, 10, 10, &bay), Err(ActionError::ActionNotPossible));
    let empty_handed = make_bot(3, 100, None, 9, 10);
    assert_eq!(bot_can_withdraw_resource(&empty_handed, Resource::Copper, 10, 10, &bay), Err(ActionError::ActionNotPossible));
}

#[test]
fn withdraw_from_empty_store_is_not_possible() {
    let bay = controlled_bay(0, None);
    let bot = *bay.get_bot(3).unwrap();
    assert_eq!(bot_can_withdraw_resource(&bot, Resource::Copper, 10, 10, &bay), Err(ActionError::ActionNotPossible));
}

#[test]
fn build_of_other_type_in_uncontrolled_bay_is_not_possible() {
    let mut bay = empty_bay();
    put(&mut bay, 1, Entity::Bot(make_bot(1, 100, Some(Resource::Gold), 3, 3)), 3, 3);
    let mut slot = None;
    assert_eq!(host_call(&mut slot, 1, &bay, HostCall::BuildEntity { entity_type: 1, x: 3, y: 4 }), 1);
    assert_eq!(slot, None);
}

#[test]
fn antenna_in_controlled_bay_is_not_possible() {
    let bay = controlled_bay(0, Some(Resource::Gold));
    let bot = *bay.get_bot(3).unwrap();
    assert_eq!(bot_can_build_entity(&bot, PartialEntityType::Antenna, 9, 11, &bay), Err(ActionError::ActionNotPossible));
}

#[test]
fn build_needs_a_resource_and_a_free_cell() {
    let mut bay = empty_bay();
    put(&mut bay, 1, Entity::Bot(make_bot(1, 100, None, 3, 3)), 3, 3);
    put(&mut bay, 2, Entity::Resource(Resource::Gold), 3, 5);
    let empty_handed = make_bot(1, 100, None, 3, 3);
    assert_eq!(bot_can_build_entity(&empty_handed, PartialEntityType::Antenna, 3, 4, &bay), Err(ActionError::ActionNotPossible));
    let loaded = make_bot(1, 100, Some(Resource::Gold), 3, 3);
    assert_eq!(bot_can_build_entity(&loaded, PartialEntityType::Antenna, 3, 5, &bay), Err(ActionError::ActionNotPossible));
    assert_eq!(bot_can_build_entity(&loaded, PartialEntityType::Antenna, 30, 5, &bay), Err(ActionError::ActionNotPossible));
    assert_eq!(bot_can_build_entity(&loaded, PartialEntityType::Antenna, 3, 4, &bay), Ok(()));
}

#[test]
fn harvest_then_deposit_adds_one() {
    let mut bay = controlled_bay(7, None);
    let next = AtomicU64::new(100);
    assert!(bay.tick_bot(0, 3, Some(BotAction::HarvestResource { x: 8, y: 10 }), &next).is_some());
    assert!(bay.tick_bot(0, 3, Some(BotAction::DepositResource { x: 10, y: 10 }), &next).is_some());
    assert_eq!(stored_copper(&bay, 10, 10), 8);
    let bot = *bay.get_bot(3).unwrap();
    assert_eq!((bot.held_resource, bot.energy), (None, 65));
}

#[test]
fn withdraw_then_deposit_restores_counts() {
    let mut bay = controlled_bay(7, None);
    let next = AtomicU64::new(100);
    let before = bay.entities[&2].0;
    assert!(bay.tick_bot(0, 3, Some(BotAction::WithdrawResource { resource: Resource::Copper, x: 10, y: 10 }), &next).is_some());
    assert_eq!(stored_copper(&bay, 10, 10), 6);
    assert_eq!(bay.get_bot(3).unwrap().held_resource, Some(Resource::Copper));
    assert!(bay.tick_bot(0, 3, Some(BotAction::DepositResource { x: 10, y: 10 }), &next).is_some());
    assert_eq!(bay.entities[&2].0, before);
    assert_eq!(bay.get_bot(3).unwrap().energy, 85);
}

#[test]
fn disallowed_choice_is_not_committed() {
    let mut bay = controlled_bay(7, None);
    let next = AtomicU64::new(100);
    assert!(bay.tick_bot(0, 3, Some(BotAction::DepositResource { x: 10, y: 10 }), &next).is_none());
    assert_eq!(bay.get_bot(3).unwrap().energy, 100);
    assert_eq!(stored_copper(&bay, 10, 10), 7);
}

#[test]
fn check_bot_action_matches_checks() {
    let bay = controlled_bay(7, None);
    assert_eq!(bay.check_bot_action(3, BotAction::HarvestResource { x: 8, y: 10 }), Ok(()));
    assert_eq!(bay.check_bot_action(4, BotAction::HarvestResource { x: 8, y: 10 }), Err(ActionError::ActionNotPossible));
    assert_eq!(
        bay.check_bot_action(3, BotAction::MoveTowards(Direction::Right)),
        Err(ActionError::ActionNotPossible)
    );
}

#[test]
fn recharge_stops_at_the_largest_energy() {
    let mut bay = empty_bay();
    put(&mut bay, 1, Entity::Bot(make_bot(1, u32::MAX - 2, None, 1, 1)), 1, 1);
    put(&mut bay, 2, Entity::Bot(make_bot(2, 0, None, 2, 2)), 2, 2);
    bay.recharge_bots(0, &[1, 2, 2, 77]);
    assert_eq!(bay.get_bot(1).unwrap().energy, u32::MAX);
    assert_eq!(bay.get_bot(2).unwrap().energy, 10);
}
