use botnet::{
    checked_pointer, chosen_action, epoch_deadline, frame_record, read_frame_length, split_frames, ActionError, Antenna, Bay,
    Bot, BotAction, BotTickError, Direction, Entity, EntityID, PartialEntity, PartialEntityType, Resource,
    SandboxBuffer, TickPhase, BAY_SIZE,
};
use std::collections::HashMap;
use std::collections::HashSet;
use std::sync::atomic::{AtomicU64, Ordering};

fn empty_bay() -> Bay {
    Bay { entities: HashMap::new(), cells: [[None; BAY_SIZE]; BAY_SIZE], controller_id: None }
}

#[test]
fn action_codes() {
    assert_eq!(ActionError::rust_to_wasm(Ok(())), 0);
    assert_eq!(ActionError::rust_to_wasm(Err(ActionError::ActionNotPossible)), 1);
    assert_eq!(ActionError::rust_to_wasm(Err(ActionError::NotEnoughEnergy)), 2);
    assert_eq!(ActionError::rust_to_wasm(Err(ActionError::AlreadyActed)), 3);
    for code in 0..4u32 {
        assert_eq!(ActionError::rust_to_wasm(ActionError::wasm_to_rust(code).unwrap()), code);
    }
    assert_eq!(ActionError::wasm_to_rust(4), Err(()));
}

#[test]
fn direction_resource_and_type_codes() {
    assert_eq!(Direction::Up.rust_to_wasm(), 0);
    assert_eq!(Direction::Down.rust_to_wasm(), 1);
    assert_eq!(Direction::Left.rust_to_wasm(), 2);
    assert_eq!(Direction::Right.rust_to_wasm(), 3);
    assert_eq!(Direction::wasm_to_rust(3), Ok(Direction::Right));
    assert_eq!(Direction::wasm_to_rust(4), Err(()));
    assert_eq!(Resource::Copper.rust_to_wasm(), 0);
    assert_eq!(Resource::Gold.rust_to_wasm(), 1);
    assert_eq!(Resource::Silicon.rust_to_wasm(), 2);
    assert_eq!(Resource::Plastic.rust_to_wasm(), 3);
    assert_eq!(Resource::wasm_to_rust(2), Ok(Resource::Silicon));
    assert_eq!(Resource::wasm_to_rust(7), Err(()));
    assert_eq!(PartialEntityType::Antenna.rust_to_wasm(), 0);
    assert_eq!(PartialEntityType::wasm_to_rust(0), Ok(PartialEntityType::Antenna));
    assert_eq!(PartialEntityType::wasm_to_rust(1), Err(()));
}

#[test]
fn frame_puts_length_in_front() {
    assert_eq!(frame_record(b"abc"), vec![3, 0, 0, 0, 0, 0, 0, 0, 97, 98, 99]);
    assert_eq!(frame_record(&[]), vec![0; 8]);
    let body = vec![7u8; 300];
    let framed = frame_record(&body);
    assert_eq!(&framed[..8], &[44, 1, 0, 0, 0, 0, 0, 0]);
    assert_eq!(&framed[8..], &body[..]);
}

#[test]
fn frame_length_reads_back() {
    assert_eq!(read_frame_length(&[44, 1, 0, 0, 0, 0, 0, 0]), 300);
    assert_eq!(read_frame_length(&[0xff; 8]), u64::MAX);
    let framed = frame_record(&vec![1u8; 70_000]);
    assert_eq!(read_frame_length(&framed[..8]), 70_000);
}

#[test]
fn split_frames_reads_back_bodies() {
    let bodies: Vec<Vec<u8>> = vec![b"first".to_vec(), Vec::new(), vec![9; 260]];
    let mut file = Vec::new();
    for body in &bodies {
        file.extend(frame_record(body));
    }
    assert_eq!(split_frames(&file), Some(bodies));
    assert_eq!(split_frames(&[]), Some(Vec::new()));
    assert_eq!(split_frames(&file[..file.len() - 1]), None);
    assert_eq!(split_frames(&[5, 0, 0]), None);
}

#[test]
fn new_bay_holds_bots_and_resources() {
    let next = AtomicU64::new(10);
    let bay = Bay::new(&next, 3);
    assert_eq!(next.load(Ordering::SeqCst), 52);
    assert_eq!(bay.entities.len(), 42);
    assert_eq!(bay.controller_id, None);
    let mut bots = 0;
    let mut places = HashSet::new();
    for (id, (entity, x, y)) in &bay.entities {
        assert!((*x as usize) < BAY_SIZE && (*y as usize) < BAY_SIZE);
        assert_eq!(bay.cells[*x as usize][*y as usize], Some(*id));
        assert!(places.insert((*x, *y)));
        assert!((10..52).contains(id));
        match entity {
            Entity::Bot(b) => {
                bots += 1;
                assert_eq!((b.id, b.controller_id, b.energy, b.held_resource), (*id, 3, 100, None));
                assert_eq!((b.x, b.y), (*x as usize, *y as usize));
            },
            Entity::Resource(_) => {},
            _ => panic!("unexpected entity"),
        }
    }
    assert_eq!(bots, 12);
    let filled = bay.cells.iter().flatten().filter(|c| c.is_some()).count();
    assert_eq!(filled, 42);
    let mut ids = bay.get_bot_ids();
    assert_eq!(ids.len(), 12);
    ids.sort();
    ids.dedup();
    assert_eq!(ids.len(), 12);
}

#[test]
fn bot_ids_follow_cells() {
    let mut bay = empty_bay();
    for (id, x, y) in [(5u64, 3u32, 1u32), (9, 0, 7), (2, 3, 0)] {
        let bot = Bot { id, controller_id: 1, energy: 1, held_resource: None, x: x as usize, y: y as usize };
        bay.entities.insert(id, (Entity::Bot(bot), x, y));
        bay.cells[x as usize][y as usize] = Some(id);
    }
    bay.entities.insert(4, (Entity::Resource(Resource::Gold), 1, 1));
    bay.cells[1][1] = Some(4);
    assert_eq!(bay.get_bot_ids(), vec![9, 2, 5]);
}

#[test]
fn fresh_id_skips_used_ones() {
    let mut bay = empty_bay();
    for (id, x) in [(7u64, 0u32), (8, 1), (u64::MAX, 2)] {
        bay.entities.insert(id, (Entity::Resource(Resource::Copper), x, 0));
        bay.cells[x as usize][0] = Some(id);
    }
    assert_eq!(bay.fresh_entity_id(3), 3);
    assert_eq!(bay.fresh_entity_id(7), 9);
    assert_eq!(bay.fresh_entity_id(u64::MAX), 0);
}

#[test]
fn entity_queries() {
    let a = Entity::Antenna(Antenna { controller_id: 4, stored_copper: 1, stored_gold: 2, stored_silicon: 3, stored_plastic: 4 });
    assert!(a.is_antenna_controlled_by(4));
    assert!(!a.is_antenna_controlled_by(5));
    assert!(!a.is_bot() && !a.is_resource());
    assert_eq!(a.unwrap_as_antenna().stored_silicon, 3);
    let r = Entity::Resource(Resource::Plastic);
    assert!(r.is_resource());
    assert_eq!(*r.unwrap_as_resource(), Resource::Plastic);
    let site = PartialEntityType::Antenna.new_partial_entity();
    assert!(site.is_partial_entity_of_type(PartialEntityType::Antenna));
    let p: PartialEntity = *site.unwrap_as_partial_entity();
    assert_eq!((p.required_copper, p.required_gold, p.required_silicon, p.required_plastic), (2, 2, 2, 2));
    assert!(p.needs_resource(Resource::Gold));
    let full = PartialEntity { contributed_gold: 2, ..p };
    assert!(!full.needs_resource(Resource::Gold));
    let mut e = Entity::PartialEntity(full);
    e.partial_entity_into_entity(11);
    assert_eq!(e, Entity::Antenna(Antenna { controller_id: 11, stored_copper: 0, stored_gold: 0, stored_silicon: 0, stored_plastic: 0 }));
}

#[test]
fn entity_at_position() {
    let mut bay = empty_bay();
    bay.entities.insert(6, (Entity::Resource(Resource::Gold), 2, 3));
    bay.cells[2][3] = Some(6);
    assert_eq!(bay.get_entity_at_position(2, 3), Some(&Entity::Resource(Resource::Gold)));
    assert_eq!(bay.get_entity_at_position(3, 2), None);
    assert_eq!(bay.get_entity_at_position(24, 3), None);
    assert!(bay.get_bot(6).is_none());
}

#[test]
fn executor_decisions() {
    assert_eq!(checked_pointer(0, SandboxBuffer::Bay), Err(BotTickError::NullPointer(SandboxBuffer::Bay)));
    assert_eq!(
        checked_pointer(0, SandboxBuffer::NetworkMemory),
        Err(BotTickError::NullPointer(SandboxBuffer::NetworkMemory))
    );
    assert_eq!(checked_pointer(64, SandboxBuffer::Bay), Ok(64));
    assert_eq!(chosen_action(None), Err(BotTickError::NoActionSet));
    let action = BotAction::MoveTowards(Direction::Down);
    assert_eq!(chosen_action(Some(action)), Ok(action));
    assert_eq!(epoch_deadline(TickPhase::Setup), 25);
    assert_eq!(epoch_deadline(TickPhase::Run), 100);
}

