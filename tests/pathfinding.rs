use botnet::{
    ActionError, BotAction, Direction, empty_neighbors, neighbors, Antenna, Bay, Bot, Entity, EntityID, Goal, PartialEntityType, ANTENNA,
    PARTIAL_ENTITY, POSITION, RESOURCE, BAY_SIZE,
};
use std::collections::HashMap;

fn empty_bay() -> Bay {
    Bay { entities: HashMap::new(), cells: [[None; BAY_SIZE]; BAY_SIZE], controller_id: None }
}

fn put(bay: &mut Bay, id: EntityID, entity: Entity, x: u32, y: u32) {
    bay.entities.insert(id, (entity, x, y));
    bay.cells[x as usize][y as usize] = Some(id);
}

fn bot_at(bay: &mut Bay, id: EntityID, x: u32, y: u32) -> Bot {
    let bot = Bot { id, controller_id: 1, energy: 100, held_resource: None, x: x as usize, y: y as usize };
    put(bay, id, Entity::Bot(bot), x, y);
    bot
}

fn touches(a: (u32, u32), b: (u32, u32)) -> bool {
    a.0.abs_diff(b.0) + a.1.abs_diff(b.1) == 1
}

#[test]
fn path_to_a_resource_walks_over_empty_cells() {
    let mut bay = empty_bay();
    let bot = bot_at(&mut bay, 1, 2, 2);
    put(&mut bay, 2, Entity::Resource(botnet::Resource::Gold), 6, 2);
    let path = bot.find_path_to(Goal::Resource, &bay).unwrap();
    assert_eq!(path[0], (6, 2));
    assert_eq!(path.len(), 4);
    assert!(touches(*path.last().unwrap(), (2, 2)));
    for pair in path.windows(2) {
        assert!(touches(pair[0], pair[1]));
    }
    for cell in &path[1..] {
        assert_eq!(bay.cells[cell.0 as usize][cell.1 as usize], None);
    }
}

#[test]
fn goal_next_to_the_bot_is_one_cell() {
    let mut bay = empty_bay();
    let bot = bot_at(&mut bay, 1, 0, 0);
    assert_eq!(bot.find_path_to(POSITION(1, 0), &bay), Some(vec![(1, 0)]));
}

#[test]
fn walled_in_bot_finds_nothing() {
    let mut bay = empty_bay();
    let bot = bot_at(&mut bay, 1, 0, 0);
    bot_at(&mut bay, 2, 1, 0);
    bot_at(&mut bay, 3, 0, 1);
    put(&mut bay, 4, Entity::Resource(botnet::Resource::Copper), 10, 10);
    assert_eq!(bot.find_path_to(Goal::Resource, &bay), None);
    assert_eq!(bot.find_path_to(POSITION(1, 0), &bay), Some(vec![(1, 0)]));
}

#[test]
fn missing_goal_finds_nothing() {
    let mut bay = empty_bay();
    let bot = bot_at(&mut bay, 1, 5, 5);
    assert_eq!(bot.find_path_to(Goal::Antenna, &bay), None);
    assert_eq!(bot.find_path_to(PARTIAL_ENTITY(PartialEntityType::Antenna), &bay), None);
}

#[test]
fn goal_predicates() {
    let mut bay = empty_bay();
    let bot = bot_at(&mut bay, 1, 5, 5);
    let antenna = Antenna { controller_id: 1, stored_copper: 0, stored_gold: 0, stored_silicon: 0, stored_plastic: 0 };
    put(&mut bay, 2, Entity::Antenna(antenna), 7, 7);
    put(&mut bay, 3, Entity::Antenna(Antenna { controller_id: 9, ..antenna }), 8, 8);
    put(&mut bay, 4, Entity::Resource(botnet::Resource::Plastic), 9, 9);
    assert!(ANTENNA(7, 7, &bot, &bay));
    assert!(!ANTENNA(8, 8, &bot, &bay));
    assert!(RESOURCE(9, 9, &bot, &bay));
    assert!(!RESOURCE(7, 7, &bot, &bay));
    assert_eq!(bot.find_path_to(Goal::Antenna, &bay).unwrap()[0], (7, 7));
}

#[test]
fn neighbours_of_a_corner_and_of_a_middle_cell() {
    assert_eq!(neighbors(0, 0), [None, Some((0, 1)), None, Some((1, 0))]);
    assert_eq!(neighbors(23, 23), [Some((23, 22)), None, Some((22, 23)), None]);
    assert_eq!(neighbors(4, 4), [Some((4, 3)), Some((4, 5)), Some((3, 4)), Some((5, 4))]);
    let mut bay = empty_bay();
    bot_at(&mut bay, 1, 4, 3);
    assert_eq!(empty_neighbors((4, 4), &bay), [None, Some((4, 5)), Some((3, 4)), Some((5, 4))]);
}

#[test]
fn moving_along_a_path_takes_its_last_step() {
    let mut bay = empty_bay();
    let bot = bot_at(&mut bay, 1, 2, 2);
    let mut path = vec![(5, 2), (4, 2), (3, 2)];
    let mut slot = None;
    assert_eq!(bot.move_along_path(&mut path, &mut slot, &bay), Ok(()));
    assert_eq!(path, vec![(5, 2), (4, 2)]);
    assert_eq!(slot, Some(BotAction::MoveTowards(Direction::Right)));
    assert_eq!(bot.move_along_path(&mut path, &mut slot, &bay), Err(ActionError::ActionNotPossible));
    let mut other = vec![(2, 3)];
    assert_eq!(bot.move_along_path(&mut other, &mut slot, &bay), Err(ActionError::AlreadyActed));
    assert_eq!(other, vec![(2, 3)]);
    assert_eq!(slot, Some(BotAction::MoveTowards(Direction::Right)));
}

#[test]
fn moving_along_a_detached_path_is_not_possible() {
    let mut bay = empty_bay();
    let bot = bot_at(&mut bay, 1, 2, 2);
    let mut slot = None;
    let mut path = vec![(9, 9)];
    assert_eq!(bot.move_along_path(&mut path, &mut slot, &bay), Err(ActionError::ActionNotPossible));
    assert_eq!(path, vec![(9, 9)]);
    let mut empty: Vec<(u32, u32)> = Vec::new();
    assert_eq!(bot.move_along_path(&mut empty, &mut slot, &bay), Err(ActionError::ActionNotPossible));
    assert_eq!(slot, None);
    bot_at(&mut bay, 2, 2, 1);
    let mut blocked = vec![(2, 1)];
    assert_eq!(bot.move_along_path(&mut blocked, &mut slot, &bay), Err(ActionError::ActionNotPossible));
    assert_eq!(blocked, vec![(2, 1)]);
}
