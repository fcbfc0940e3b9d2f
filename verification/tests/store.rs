use ecs_library::entity::Entites;

#[derive(Clone, Copy, Debug, PartialEq)]
enum Comp {
    Health(u32),
    Speed(f32),
}

const HEALTH: u64 = 1;
const SPEED: u64 = 2;

fn health_of(c: Option<Comp>) -> u32 {
    match c {
        Some(Comp::Health(h)) => h,
        _ => panic!("expected a health component"),
    }
}

fn speed_of(c: Option<Comp>) -> f32 {
    match c {
        Some(Comp::Speed(s)) => s,
        _ => panic!("expected a speed component"),
    }
}

#[test]
fn entity_register_an_entity() {
    let mut entities: Entites<Comp> = Entites::default();
    entities.register_component(HEALTH);
    assert!(entities.column_len(HEALTH) == Some(0));
}

#[test]
fn entity_create_entity() {
    let mut entities: Entites<Comp> = Entites::default();
    entities.register_component(HEALTH);
    entities.register_component(SPEED);

    entities.create_entity();
    let health_len = entities.column_len(HEALTH).unwrap();
    let speed_len = entities.column_len(SPEED).unwrap();

    assert!(health_len == speed_len && health_len == 1);
    assert!(entities.component_at(HEALTH, 0).is_none() && entities.component_at(SPEED, 0).is_none());
}

#[test]
fn entity_with_component() {
    let mut entities: Entites<Comp> = Entites::default();
    entities.register_component(HEALTH);
    entities.register_component(SPEED);
    let e = entities.create_entity();
    e.with_component(HEALTH, Comp::Health(100)).unwrap();
    e.with_component(SPEED, Comp::Speed(25.0)).unwrap();

    assert_eq!(health_of(entities.component_at(HEALTH, 0)), 100);
}

#[test]
fn mod_register_an_entity() {
    let mut entities: Entites<Comp> = Entites::default();
    entities.register_component(HEALTH);
    assert!(entities.column_len(HEALTH) == Some(0));
}

#[test]
fn bitmask_updated_when_registrering_entities() {
    let mut entities: Entites<Comp> = Entites::default();
    entities.register_component(HEALTH);
    let mask = entities.get_bitmask(HEALTH).unwrap();
    assert_eq!(mask, 1);

    entities.register_component(SPEED);
    let mask = entities.get_bitmask(SPEED).unwrap();
    assert_eq!(mask, 2);
}

#[test]
fn mod_create_entity() {
    let mut entities: Entites<Comp> = Entites::default();
    entities.register_component(HEALTH);
    entities.register_component(SPEED);

    entities.create_entity();
    let health_len = entities.column_len(HEALTH).unwrap();
    let speed_len = entities.column_len(SPEED).unwrap();

    assert!(health_len == speed_len && health_len == 1);
    assert!(entities.component_at(HEALTH, 0).is_none() && entities.component_at(SPEED, 0).is_none());
}

#[test]
fn mod_with_component() {
    let mut entities: Entites<Comp> = Entites::default();
    entities.register_component(HEALTH);
    entities.register_component(SPEED);
    let e = entities.create_entity();
    e.with_component(HEALTH, Comp::Health(100)).unwrap();
    e.with_component(SPEED, Comp::Speed(25.0)).unwrap();

    assert_eq!(health_of(entities.component_at(HEALTH, 0)), 100);
}

#[test]
fn map_is_updated_when_creating_entities() {
    let mut entities: Entites<Comp> = Entites::default();
    entities.register_component(HEALTH);
    entities.register_component(SPEED);
    let e = entities.create_entity();
    e.with_component(HEALTH, Comp::Health(100)).unwrap();
    e.with_component(SPEED, Comp::Speed(25.0)).unwrap();

    assert_eq!(entities.slot_mask(0), 3);

    let e = entities.create_entity();
    e.with_component(SPEED, Comp::Speed(25.0)).unwrap();
    assert_eq!(entities.slot_mask(1), 2);
}

#[test]
fn test_delete_component_by_entity_id() {
    let mut entities: Entites<Comp> = Entites::default();
    entities.register_component(HEALTH);
    entities.register_component(SPEED);
    let e = entities.create_entity();
    e.with_component(HEALTH, Comp::Health(100)).unwrap();
    e.with_component(SPEED, Comp::Speed(25.0)).unwrap();

    entities.delete_component_by_entity_id(HEALTH, 0).unwrap();

    assert_eq!(entities.slot_mask(0), 2);
}

#[test]
fn add_component_to_entity_by_id() {
    let mut entities: Entites<Comp> = Entites::default();
    entities.register_component(HEALTH);
    entities.register_component(SPEED);
    let e = entities.create_entity();
    e.with_component(HEALTH, Comp::Health(100)).unwrap();

    entities.add_component_to_entity_by_id(SPEED, Comp::Speed(25.0), 0).unwrap();
    assert_eq!(entities.slot_mask(0), 3);

    assert_eq!(speed_of(entities.component_at(SPEED, 0)), 25.0);
}

#[test]
fn delete_an_entity_by_id() {
    let mut entities: Entites<Comp> = Entites::default();
    entities.register_component(HEALTH);
    entities.register_component(SPEED);

    let e = entities.create_entity();
    e.with_component(HEALTH, Comp::Health(100)).unwrap();
    let e = entities.create_entity();
    e.with_component(HEALTH, Comp::Health(150)).unwrap();

    entities.delete_entity_by_id(0).unwrap();

    assert_eq!(entities.slot_mask(0), 0);
}

#[test]
fn created_entitites_are_inserter_into_deleted_entities_column() {
    let mut entities: Entites<Comp> = Entites::default();
    entities.register_component(HEALTH);
    let e = entities.create_entity();
    e.with_component(HEALTH, Comp::Health(100)).unwrap();
    let e = entities.create_entity();
    e.with_component(HEALTH, Comp::Health(150)).unwrap();
    entities.delete_entity_by_id(0).unwrap();
    assert_eq!(entities.slot_mask(0), 0);

    let e = entities.create_entity();
    e.with_component(HEALTH, Comp::Health(25)).unwrap();
    assert_eq!(entities.slot_mask(0), 1);
    assert_eq!(health_of(entities.component_at(HEALTH, 0)), 25);
}
