use rust_ecs::Entity;
use rust_ecs::EntityHandler;

#[test]
fn new_entity() {
    let mut handler = EntityHandler::new();
    let entity = handler.new_entity();
    assert_eq!(entity.get_index(), 0);
    assert_eq!(entity.get_version(), 0);
}

#[test]
fn new_entity_25() {
    let mut handler = EntityHandler::new();
    for _ in 0..25 {
        handler.new_entity();
    }
    let entity = handler.new_entity();
    assert_eq!(entity.get_index(), 25);
    assert_eq!(entity.get_version(), 0);
}

#[test]
fn kill_head_check() {
    let mut handler = EntityHandler::new();
    handler.new_entity();
    let e1 = handler.new_entity();
    let e2 = handler.new_entity();
    handler.new_entity();

    handler.kill_entity(e2);
    handler.kill_entity(e1);

    assert_eq!(handler.head_index(), 1);
}

#[test]
fn kill() {
    let mut handler = EntityHandler::new();
    let e1 = handler.new_entity();
    handler.kill_entity(e1);

    assert!(!handler.is_alive(e1));
}

#[test]
fn respawn() {
    let mut handler = EntityHandler::new();
    handler.new_entity();
    let e1 = handler.new_entity();
    handler.kill_entity(e1);

    assert_eq!(handler.head_index(), 1);
}

#[test]
fn entity_ident_version() {
    let e = Entity::new(0, 20);

    assert_eq!(e.id, 20);
}

#[test]
fn entity_recycle_lifo() {
    let mut handler = EntityHandler::new();
    let entities: Vec<Entity> = (0..4).map(|_| handler.new_entity()).collect();
    assert_eq!(entities[2].get_index(), 2);

    handler.kill_entity(entities[2]);
    handler.kill_entity(entities[1]);
    assert_eq!(handler.killed_count(), 2);

    let a = handler.new_entity();
    let b = handler.new_entity();
    assert_eq!(handler.killed_count(), 0);
    assert_eq!(a.get_index(), 1);
    assert_eq!(a.get_version(), entities[1].get_version() + 1);
    assert_eq!(b.get_index(), 2);
    assert_eq!(b.get_version(), entities[2].get_version() + 1);
}

#[test]
fn live_entities_have_distinct_identifiers() {
    let mut handler = EntityHandler::new();
    let e1 = handler.new_entity();
    handler.kill_entity(e1);
    let e2 = handler.new_entity();
    assert_eq!(e1.get_index(), e2.get_index());
    assert_ne!(e1.get_version(), e2.get_version());
    assert!(!handler.is_alive(e1));
    assert!(handler.is_alive(e2));
}

#[test]
fn dead_until_reallocated() {
    let mut handler = EntityHandler::new();
    let e0 = handler.new_entity();
    let e1 = handler.new_entity();
    handler.kill_entity(e1);
    assert!(!handler.is_alive(e1));

    // Operations on other slots leave the dead handle dead.
    handler.kill_entity(e0);
    assert!(!handler.is_alive(e1));
    let e0b = handler.new_entity();
    assert_eq!(e0b.get_index(), 0);
    assert!(!handler.is_alive(e1));

    // Reallocation revives the slot with a strictly greater version.
    let e1b = handler.new_entity();
    assert_eq!(e1b.get_index(), 1);
    assert_eq!(e1b.get_version(), e1.get_version() + 1);
    assert!(handler.is_alive(e1b));
    assert!(!handler.is_alive(e1));
}

#[test]
fn kill_out_of_range_is_ignored() {
    let mut handler = EntityHandler::new();
    let e = handler.new_entity();
    let stray = Entity::new(7, 0);
    handler.kill_entity(stray);
    assert!(handler.is_alive(e));
    let next = handler.new_entity();
    assert_eq!(next.get_index(), 1);
}

#[test]
fn version_wraps_around() {
    let mut handler = EntityHandler::new();
    let mut e = handler.new_entity();
    assert_eq!(e.get_version(), 0);
    for expected in 1..16384u32 {
        handler.kill_entity(e);
        e = handler.new_entity();
        assert_eq!(e.get_index(), 0);
        assert_eq!(e.get_version(), expected);
    }
    handler.kill_entity(e);
    e = handler.new_entity();
    assert_eq!(e.get_index(), 0);
    assert_eq!(e.get_version(), 0);
}
